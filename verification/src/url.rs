//! URLs, read and changed by the `url` crate.

use vstd::prelude::*;

verus! {

/// What is read of a URL.
pub struct UrlParts {
    /// The host, where the URL has one.
    pub host: Option<String>,
    /// The port of the URL, or else the one that its scheme implies.
    pub port: Option<u16>,
    /// The query, percent-encoded and without the question mark.
    pub query: Option<String>,
}

/// The model of [`UrlParts`].
pub struct UrlModel {
    /// The host, where the URL has one.
    pub host: Option<Seq<char>>,
    /// The port of the URL, or else the one that its scheme implies.
    pub port: Option<u16>,
    /// The query, percent-encoded and without the question mark.
    pub query: Option<Seq<char>>,
}

impl UrlParts {
    /// The model of these parts.
    pub open spec fn model(&self) -> UrlModel {
        UrlModel {
            host: crate::text::optional_text(self.host),
            port: self.port,
            query: crate::text::optional_text(self.query),
        }
    }
}

/// The model of a read URL: its parts, or the message of the error.
pub open spec fn url_outcome(parsed: Result<UrlParts, String>) -> Result<UrlModel, Seq<char>> {
    match parsed {
        Ok(parts) => Ok(parts.model()),
        Err(message) => Err(message@),
    }
}

/// What `url::Url::parse` makes of a text: the host, port and query of the URL,
/// or the message of the error.
pub uninterp spec fn parsed_url(text: Seq<char>) -> Result<UrlModel, Seq<char>>;

/// Calls `url::Url::parse`, and copies from the URL what its methods `host_str`,
/// `port_or_known_default` and `query` return. Whether the text is a URL, what
/// its parts are and what the error says is the name [`parsed_url`]. Each
/// character has at most four bytes and the parser writes at most three
/// characters for a byte of a query, which bounds the length of the query. The
/// parser counts the characters of an authority in 32 bits with a sign, which bounds
/// the length of the text.
#[verifier::external_body]
pub(crate) fn read_url(text: &str) -> (parsed: Result<UrlParts, String>)
    requires
        text@.len() <= crate::text::MAX_PARSED_CHARS,
    ensures
        url_outcome(parsed) == parsed_url(text@),
        parsed matches Ok(UrlParts { query: Some(query), .. }) ==> query@.len() <= 12 * text@.len(),
{
    match url::Url::parse(text) {
        Ok(url) => Ok(
            UrlParts {
                host: url.host_str().map(|host| host.to_owned()),
                port: url.port_or_known_default(),
                query: url.query().map(|query| query.to_owned()),
            },
        ),
        Err(error) => Err(error.to_string()),
    }
}

/// The URL `text` with its query set to `query`, as `url::Url::set_query` does.
pub uninterp spec fn url_with_query(text: Seq<char>, query: Seq<char>) -> Seq<char>;

/// Whether a query of so many characters can be added to a URL of so many. The
/// changed URL has to stay under four gigabytes, or the `url` crate panics. It has
/// at most twelve bytes for a character (four bytes, each percent-encoded), but 200
/// for a character of the host, which is written in Punycode. The query that the
/// URL has counts once more, as part of the query that is set.
pub open spec fn query_fits(url_chars: nat, query_chars: nat) -> bool {
    350 * url_chars + 12 * query_chars <= 4_199_000_000
}

/// Decides [`query_fits`] for a URL and a query.
pub fn can_add_query(url: &str, query: &str) -> (yes: bool)
    ensures
        yes == query_fits(url@.len(), query@.len()),
{
    let url_chars: u128 = url.unicode_len() as u128;
    let query_chars: u128 = query.unicode_len() as u128;
    350 * url_chars + 12 * query_chars <= 4_199_000_000
}

/// Calls `url::Url::set_query` with the query, on the URL that `url::Url::parse`
/// makes of `text`. The text of the changed URL is the name [`url_with_query`]. Why
/// the lengths are bounded says [`query_fits`].
#[verifier::external_body]
pub(crate) fn set_query(text: &str, query: &str) -> (changed: String)
    requires
        parsed_url(text@) is Ok,
        200 * text@.len() + 12 * query@.len() <= 4_200_000_000,
    ensures
        changed@ == url_with_query(text@, query@),
{
    let mut url = url::Url::parse(text).expect("a text that parsed before");
    url.set_query(Some(query));
    url.to_string()
}

/// The query that a URL gets: the one that it has, where that is not empty, then
/// the new one.
pub open spec fn merged_query(existing: Option<Seq<char>>, query: Seq<char>) -> Seq<char> {
    match existing {
        Some(existing) if existing.len() > 0 => existing + "&"@ + query,
        _ => query,
    }
}

/// The URL `text` with `query` added to its query. An empty query changes
/// nothing.
pub open spec fn url_plus_query(text: Seq<char>, url: UrlModel, query: Seq<char>) -> Seq<char> {
    if query.len() == 0 {
        text
    } else {
        url_with_query(text, merged_query(url.query, query))
    }
}

/// Computes [`merged_query`].
pub fn merge_query(existing: &Option<String>, query: &str) -> (merged: String)
    ensures
        merged@ == merged_query(crate::text::optional_text(*existing), query@),
{
    match existing {
        Some(text) => {
            if text.as_str().unicode_len() > 0 {
                let mut merged = text.clone();
                merged.append("&");
                merged.append(query);
                merged
            } else {
                query.to_owned()
            }
        },
        None => query.to_owned(),
    }
}

/// Computes [`url_plus_query`] for a URL and its parts.
pub(crate) fn with_query_string(text: &str, url: &UrlParts, query: &str) -> (changed: String)
    requires
        parsed_url(text@) == Ok::<UrlModel, Seq<char>>(url.model()),
        query@.len() > 0 ==> query_fits(text@.len(), query@.len()),
        url.query matches Some(existing) ==> existing@.len() <= 12 * text@.len(),
    ensures
        changed@ == url_plus_query(text@, url.model(), query@),
{
    if query.unicode_len() == 0 {
        text.to_owned()
    } else {
        let merged = merge_query(&url.query, query);
        proof {
            reveal_strlit("&");
        }
        set_query(text, merged.as_str())
    }
}

/// Adding a query keeps the one that is there: the merged query is the whole existing
/// query, one `&` and the new query, or the new query alone where there is none or an
/// empty one.
pub proof fn law_merging_keeps_the_existing_query(
    existing: &Option<String>,
    query: &str,
    merged: String,
)
    requires
        call_ensures(merge_query, (existing, query), merged),
    ensures
        existing matches Some(text) && text@.len() > 0 ==> {
            &&& merged@.len() == existing->Some_0@.len() + 1 + query@.len()
            &&& merged@.take(existing->Some_0@.len() as int) == existing->Some_0@
            &&& merged@[existing->Some_0@.len() as int] == '&'
            &&& merged@.skip(existing->Some_0@.len() as int + 1) == query@
        },
        existing is None || existing->Some_0@.len() == 0 ==> merged@ == query@,
{
    reveal_strlit("&");
    if existing is Some && existing->Some_0@.len() > 0 {
        let text = existing->Some_0@;
        assert(merged@ == text + "&"@ + query@);
        assert(merged@.take(text.len() as int) =~= text);
        assert(merged@.skip(text.len() as int + 1) =~= query@);
    }
}

/// What stands between the `&`s of a merged query is what stands between those of the
/// existing query, then what stands between those of the new one: no parameter of either
/// is lost, added or changed.
pub proof fn law_merged_query_has_all_parameters(existing: Seq<char>, query: Seq<char>)
    requires
        existing.len() > 0,
    ensures
        crate::text::split(merged_query(Some(existing), query), '&') == crate::text::split(
            existing,
            '&',
        ) + crate::text::split(query, '&'),
{
    reveal_strlit("&");
    assert("&"@ =~= seq!['&']);
    crate::text::law_split_of_two(existing, query, '&');
}

/// A URL to which a query is added is the URL with the merged query set; an empty query
/// leaves it as it is.
pub proof fn law_added_query_is_merged(text: Seq<char>, url: UrlModel, query: Seq<char>)
    ensures
        query.len() == 0 ==> url_plus_query(text, url, query) == text,
        query.len() > 0 && (url.query is None || url.query->Some_0.len() == 0) ==> url_plus_query(
            text,
            url,
            query,
        ) == url_with_query(text, query),
        query.len() > 0 && url.query is Some && url.query->Some_0.len() > 0 ==> url_plus_query(
            text,
            url,
            query,
        ) == url_with_query(text, url.query->Some_0 + seq!['&'] + query),
{
    reveal_strlit("&");
    assert("&"@ =~= seq!['&']);
}

} // verus!
