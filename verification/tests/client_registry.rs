use std::sync::Arc;

use mcpg_plugin_backend_net_core::client_registry::{
    collect_cred_refs, digest_credential_bundle, static_digest, BuildAction, BuildEvent,
    ClientRegistry, ClientRegistryConfig, CredDigest,
};

fn pair(name: &str, value: &str) -> (String, String) {
    (name.to_owned(), value.to_owned())
}

fn fake_client() -> Arc<reqwest::Client> {
    Arc::new(reqwest::Client::new())
}

/// Runs one request to its end; the build is made only where it is asked for.
fn obtain(
    registry: &mut ClientRegistry,
    digest: CredDigest,
    cred_keys: Vec<(String, String)>,
    now: u64,
    builds: &mut usize,
) -> (Arc<reqwest::Client>, bool) {
    match registry.get_or_build(digest, BuildEvent::Requested, now) {
        BuildAction::Use { client, evicted } => (client, evicted),
        BuildAction::Fail(message) => panic!("{}", message),
        BuildAction::Build => {
            *builds += 1;
            let client = fake_client();
            match registry.get_or_build(digest, BuildEvent::Built { client, cred_keys }, now) {
                BuildAction::Use { client, evicted } => (client, evicted),
                _ => panic!("a built client is used"),
            }
        }
    }
}

#[test]
fn digest_is_order_independent() {
    let a = digest_credential_bundle(&[
        pair("url", "https://x.test/"),
        pair("hdr:authorization", "Bearer abc"),
    ]);
    let b = digest_credential_bundle(&[
        pair("hdr:authorization", "Bearer abc"),
        pair("url", "https://x.test/"),
    ]);
    assert_eq!(a, b);
}

#[test]
fn digest_distinguishes_different_inputs() {
    let a = digest_credential_bundle(&[pair("hdr:x", "v1")]);
    let b = digest_credential_bundle(&[pair("hdr:x", "v2")]);
    assert_ne!(a, b);
}

#[test]
fn digest_hashes_sorted_lines() {
    let digest = digest_credential_bundle(&[pair("b", "2"), pair("a", "1")]);
    let expected: [u8; 32] = blake3::hash(b"a=1\nb=2\n").into();
    assert_eq!(digest, expected);
}

#[test]
fn digest_ignores_the_order_of_equal_names() {
    let digest = digest_credential_bundle(&[pair("b", "0"), pair("a", "2"), pair("a", "1")]);
    let expected: [u8; 32] = blake3::hash(b"a=1\na=2\nb=0\n").into();
    assert_eq!(digest, expected);
    assert_eq!(
        digest,
        digest_credential_bundle(&[pair("a", "1"), pair("b", "0"), pair("a", "2")])
    );
    assert_ne!(
        digest,
        digest_credential_bundle(&[pair("a", "1"), pair("b", "0"), pair("a", "1")])
    );
}

#[test]
fn digest_of_nothing_is_the_hash_of_nothing() {
    let expected: [u8; 32] = blake3::hash(b"").into();
    assert_eq!(digest_credential_bundle(&[]), expected);
}

#[test]
fn static_digest_is_stable() {
    assert_eq!(static_digest(), static_digest());
}

#[test]
fn static_digest_hashes_its_word() {
    let expected: [u8; 32] = blake3::hash(b"static").into();
    assert_eq!(static_digest(), expected);
}

#[test]
fn collect_cred_refs_finds_simple_uri() {
    let refs = collect_cred_refs("Bearer cred://oauth/api?type=access").unwrap();
    assert_eq!(refs, vec![("oauth".to_owned(), "api".to_owned())]);
}

#[test]
fn collect_cred_refs_skips_when_absent() {
    assert!(collect_cred_refs("Bearer static-token").is_none());
}

#[test]
fn collect_cred_refs_finds_multiple() {
    let s = "Auth: cred://oauth/api Cookie: cred://cookies/sess";
    let refs = collect_cred_refs(s).unwrap();
    assert_eq!(refs.len(), 2);
    assert!(refs.contains(&("oauth".to_owned(), "api".to_owned())));
    assert!(refs.contains(&("cookies".to_owned(), "sess".to_owned())));
}

#[test]
fn collect_cred_refs_cuts_fragments_and_delimiters() {
    assert_eq!(collect_cred_refs("cred://p/t#field").unwrap(), vec![pair("p", "t")]);
    assert_eq!(collect_cred_refs("<cred://p/a/b>").unwrap(), vec![pair("p", "a/b")]);
    assert_eq!(
        collect_cred_refs("cred://p/a,cred://q/b;cred://r/c").unwrap(),
        vec![pair("p", "a"), pair("q", "b"), pair("r", "c")]
    );
    assert_eq!(
        collect_cred_refs("cred://p/\u{e9}t\u{e9}\u{2003}rest").unwrap(),
        vec![pair("p", "\u{e9}t\u{e9}")]
    );
}

#[test]
fn collect_cred_refs_passes_over_empty_parts() {
    assert!(collect_cred_refs("cred:///target").is_none());
    assert!(collect_cred_refs("cred://plugin/").is_none());
    assert!(collect_cred_refs("cred://plugin/#field").is_none());
    assert!(collect_cred_refs("cred://plugin").is_none());
    assert_eq!(
        collect_cred_refs("cred:///x cred://p/t").unwrap(),
        vec![pair("p", "t")]
    );
}

#[test]
fn collect_cred_refs_reads_template_references() {
    assert_eq!(
        collect_cred_refs("Bearer ${cred://oauth/api}").unwrap(),
        vec![pair("oauth", "api")]
    );
    assert_eq!(
        collect_cred_refs("${cred://p/a}${cred://q/b#field}/v1").unwrap(),
        vec![pair("p", "a"), pair("q", "b")]
    );
}

#[test]
fn collect_cred_refs_finds_what_stands_behind_a_broken_reference() {
    assert_eq!(
        collect_cred_refs("cred://oauth cred://vault/db").unwrap(),
        vec![pair("vault", "db")]
    );
    assert_eq!(
        collect_cred_refs("cred://cred://vault/db").unwrap(),
        vec![pair("vault", "db")]
    );
    assert!(collect_cred_refs("cred://x/y${cred://p/t}")
        .unwrap()
        .contains(&pair("p", "t")));
    assert_eq!(collect_cred_refs("cred://a/b cred://c").unwrap(), vec![pair("a", "b")]);
}

#[test]
fn collect_cred_refs_reads_the_plugin_id_up_to_the_next_slash() {
    assert_eq!(
        collect_cred_refs("cred://a b/c").unwrap(),
        vec![pair("a b", "c")]
    );
}

#[test]
fn registry_defaults() {
    let config = ClientRegistryConfig::default();
    assert_eq!(config.max_entries, 256);
    assert_eq!(config.idle_eviction_ms, 15 * 60 * 1000);
}

#[test]
fn get_or_build_caches_on_hit() {
    let mut reg = ClientRegistry::new(ClientRegistryConfig::default());
    let digest = static_digest();
    let mut calls = 0;
    for now in 0..3 {
        obtain(&mut reg, digest, vec![], now, &mut calls);
    }
    assert_eq!(calls, 1);
    assert_eq!(reg.len(), 1);
}

#[test]
fn a_hit_returns_the_stored_client() {
    let mut reg = ClientRegistry::new(ClientRegistryConfig::default());
    let mut calls = 0;
    let (first, _) = obtain(&mut reg, static_digest(), vec![], 0, &mut calls);
    let (second, _) = obtain(&mut reg, static_digest(), vec![], 1, &mut calls);
    assert!(Arc::ptr_eq(&first, &second));
}

#[test]
fn a_client_that_was_stored_meanwhile_wins() {
    let mut reg = ClientRegistry::new(ClientRegistryConfig::default());
    let digest = static_digest();
    assert!(matches!(
        reg.get_or_build(digest, BuildEvent::Requested, 0),
        BuildAction::Build
    ));
    let mut calls = 0;
    let (stored, _) = obtain(&mut reg, digest, vec![], 1, &mut calls);
    let late = fake_client();
    match reg.get_or_build(
        digest,
        BuildEvent::Built { client: Arc::clone(&late), cred_keys: vec![] },
        2,
    ) {
        BuildAction::Use { client, evicted } => {
            assert!(Arc::ptr_eq(&client, &stored));
            assert!(!Arc::ptr_eq(&client, &late));
            assert!(!evicted);
        }
        _ => panic!("a stored client is used"),
    }
    assert_eq!(reg.len(), 1);
}

#[test]
fn a_failed_build_leaves_the_registry_alone() {
    let mut reg = ClientRegistry::new(ClientRegistryConfig::default());
    match reg.get_or_build(static_digest(), BuildEvent::BuildFailed("no route".to_owned()), 0) {
        BuildAction::Fail(message) => assert_eq!(message, "no route"),
        _ => panic!("a failure is passed on"),
    }
    assert_eq!(reg.len(), 0);
}

#[test]
fn the_client_used_longest_ago_goes_first() {
    let mut reg = ClientRegistry::new(ClientRegistryConfig {
        max_entries: 2,
        idle_eviction_ms: 1_000,
    });
    let digests: Vec<CredDigest> = ["u1", "u2", "u3"]
        .iter()
        .map(|url| digest_credential_bundle(&[pair("url", url)]))
        .collect();
    let mut calls = 0;
    assert!(!obtain(&mut reg, digests[0], vec![], 1, &mut calls).1);
    assert!(!obtain(&mut reg, digests[1], vec![], 2, &mut calls).1);
    assert!(!obtain(&mut reg, digests[0], vec![], 3, &mut calls).1);
    assert!(obtain(&mut reg, digests[2], vec![], 4, &mut calls).1);
    assert_eq!(calls, 3);
    assert_eq!(reg.len(), 2);
    obtain(&mut reg, digests[0], vec![], 5, &mut calls);
    obtain(&mut reg, digests[2], vec![], 6, &mut calls);
    assert_eq!(calls, 3);
    obtain(&mut reg, digests[1], vec![], 7, &mut calls);
    assert_eq!(calls, 4);
    assert_eq!(reg.len(), 2);
}

#[test]
fn a_registry_without_room_keeps_nothing() {
    let mut reg = ClientRegistry::new(ClientRegistryConfig {
        max_entries: 0,
        idle_eviction_ms: 1_000,
    });
    let mut calls = 0;
    assert!(obtain(&mut reg, static_digest(), vec![], 0, &mut calls).1);
    assert!(obtain(&mut reg, static_digest(), vec![], 1, &mut calls).1);
    assert_eq!(calls, 2);
    assert_eq!(reg.len(), 0);
}

#[test]
fn evict_for_drops_matching_entries() {
    let mut reg = ClientRegistry::new(ClientRegistryConfig::default());
    let d1 = digest_credential_bundle(&[pair("url", "u1")]);
    let d2 = digest_credential_bundle(&[pair("url", "u2")]);
    let mut calls = 0;
    obtain(&mut reg, d1, vec![pair("p", "t1")], 0, &mut calls);
    obtain(&mut reg, d2, vec![pair("p", "t2")], 0, &mut calls);
    assert_eq!(reg.len(), 2);
    let dropped = reg.evict_for("p", "t1");
    assert_eq!(dropped, 1);
    assert_eq!(reg.len(), 1);
    obtain(&mut reg, d2, vec![], 1, &mut calls);
    assert_eq!(calls, 2);
    assert_eq!(reg.evict_for("p", "t1"), 0);
    assert_eq!(reg.evict_for("t2", "p"), 0);
}

#[test]
fn evict_for_secret_drops_all_entries() {
    let mut reg = ClientRegistry::new(ClientRegistryConfig::default());
    let d1 = digest_credential_bundle(&[pair("url", "u1")]);
    let d2 = digest_credential_bundle(&[pair("url", "u2")]);
    let mut calls = 0;
    obtain(&mut reg, d1, vec![], 0, &mut calls);
    obtain(&mut reg, d2, vec![], 0, &mut calls);
    assert_eq!(reg.len(), 2);
    let dropped = reg.evict_for_secret("vault://kv/db#password");
    assert_eq!(dropped, 2, "all entries dropped on rotation");
    assert_eq!(reg.len(), 0);
}

#[test]
fn sweep_idle_drops_old_entries() {
    let mut reg = ClientRegistry::new(ClientRegistryConfig {
        max_entries: 256,
        idle_eviction_ms: 10,
    });
    let d = static_digest();
    let mut calls = 0;
    obtain(&mut reg, d, vec![], 0, &mut calls);
    assert_eq!(reg.len(), 1);
    let dropped = reg.sweep_idle(30);
    assert_eq!(dropped, 1);
    assert_eq!(reg.len(), 0);
}

#[test]
fn sweep_idle_keeps_clients_at_the_limit() {
    let mut reg = ClientRegistry::new(ClientRegistryConfig {
        max_entries: 256,
        idle_eviction_ms: 10,
    });
    let mut calls = 0;
    obtain(&mut reg, static_digest(), vec![], 20, &mut calls);
    assert_eq!(reg.sweep_idle(5), 0);
    assert_eq!(reg.sweep_idle(30), 0);
    assert_eq!(reg.len(), 1);
    assert_eq!(reg.sweep_idle(31), 1);
    assert_eq!(reg.sweep_idle(31), 0);
    assert_eq!(reg.len(), 0);
}

#[test]
fn callers_in_turn_share_one_client() {
    let mut reg = ClientRegistry::new(ClientRegistryConfig::default());
    let digest = digest_credential_bundle(&[pair("url", "https://x.test/")]);
    let mut builds = 0;
    let (first, _) = obtain(&mut reg, digest, vec![], 1, &mut builds);
    for now in 2..20 {
        let (client, evicted) = obtain(&mut reg, digest, vec![], now, &mut builds);
        assert!(Arc::ptr_eq(&client, &first));
        assert!(!evicted);
    }
    assert_eq!(builds, 1);
    assert_eq!(reg.len(), 1);
}
