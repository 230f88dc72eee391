use mcpg_plugin_backend_net_core::types::{
    HeaderTable, HttpBackendMethod, HttpCallMode, RetrySafetyContext,
};

#[test]
fn method_names_in_any_common_casing() {
    for name in ["get", "GET", "Get"] {
        assert_eq!(HttpBackendMethod::from_name(name), Some(HttpBackendMethod::Get));
    }
    for name in ["post", "POST", "Post"] {
        assert_eq!(HttpBackendMethod::from_name(name), Some(HttpBackendMethod::Post));
    }
    for name in ["gET", "PUT", "", " get"] {
        assert_eq!(HttpBackendMethod::from_name(name), None);
    }
}

#[test]
fn call_modes_follow_methods() {
    let post = HttpCallMode::for_method(HttpBackendMethod::Post);
    assert_eq!(post, HttpCallMode::JsonBody);
    assert_eq!(post.request_kind(), "json_body");
    assert_eq!(
        post.retry_safety_context(),
        RetrySafetyContext::PotentiallyNonIdempotentJsonCall
    );
    let get = HttpCallMode::for_method(HttpBackendMethod::Get);
    assert_eq!(get, HttpCallMode::QueryString);
    assert_eq!(get.request_kind(), "query_string");
    assert_eq!(get.retry_safety_context(), RetrySafetyContext::ReadOnlyProbe);
}

#[test]
fn header_tables_sort_and_replace() {
    let mut table = HeaderTable::new();
    table.insert("b".to_owned(), "1".to_owned());
    table.insert("a".to_owned(), "2".to_owned());
    table.insert("B".to_owned(), "3".to_owned());
    table.insert("b".to_owned(), "4".to_owned());
    let expected: Vec<(String, String)> = [("B", "3"), ("a", "2"), ("b", "4")]
        .iter()
        .map(|(name, value)| ((*name).to_owned(), (*value).to_owned()))
        .collect();
    assert_eq!(table.entries(), &expected);
    assert_eq!(table.clone().entries(), &expected);
}

#[test]
fn header_tables_do_not_depend_on_the_order_of_inserts() {
    let mut one = HeaderTable::new();
    let mut other = HeaderTable::new();
    for name in ["c", "a", "b"] {
        one.insert(name.to_owned(), "v".to_owned());
    }
    for name in ["b", "c", "a"] {
        other.insert(name.to_owned(), "v".to_owned());
    }
    assert_eq!(one.entries(), other.entries());
}

#[test]
fn header_tables_take_new_values() {
    let mut table = HeaderTable::new();
    table.insert("b".to_owned(), "1".to_owned());
    table.insert("a".to_owned(), "2".to_owned());
    let changed = table.with_values(vec!["x".to_owned(), "y".to_owned()]);
    assert_eq!(
        changed.entries(),
        &vec![("a".to_owned(), "x".to_owned()), ("b".to_owned(), "y".to_owned())]
    );
}
