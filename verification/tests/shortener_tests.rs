use sha2::Digest;
use toolbox::shortener::{apply_action, UrlAction, UrlOutcome, UrlStore};

fn expected_code(url: &str) -> String {
    let digest = sha2::Sha256::digest(url.as_bytes());
    hex::encode(&digest[..4])
}

#[test]
fn add_code_matches_sha256_prefix() {
    let mut store = UrlStore::new();
    let code = store.add("https://example.com");
    assert_eq!(code, expected_code("https://example.com"));
    assert_eq!(code.len(), 8);
}

#[test]
fn add_then_get_round_trip() {
    let mut store = UrlStore::new();
    let code = store.add("https://example.com/some/path?q=1");
    let back = store.get(&code);
    assert_eq!(back.as_deref(), Some("https://example.com/some/path?q=1"));
}

#[test]
fn add_is_deterministic() {
    let mut store1 = UrlStore::new();
    let mut store2 = UrlStore::new();
    let c1 = store1.add("https://rust-lang.org");
    let c2 = store2.add("https://rust-lang.org");
    assert_eq!(c1, c2);
    let c3 = store1.add("https://rust-lang.org");
    assert_eq!(c1, c3);
}

#[test]
fn unknown_code_is_not_found() {
    let store = UrlStore::new();
    assert_eq!(store.get("deadbeef"), None);
}

#[test]
fn list_returns_exactly_the_added_pairs() {
    let mut store = UrlStore::new();
    let urls = ["https://a.example", "https://b.example", "https://c.example"];
    let mut expected: Vec<(String, String)> = Vec::new();
    for url in urls {
        let code = store.add(url);
        expected.push((code, url.to_string()));
    }
    let mut listed = store.list();
    listed.sort();
    expected.sort();
    assert_eq!(listed, expected);
}

#[test]
fn colliding_code_overwrites_the_mapping() {
    // Two URLs whose codes collide are infeasible to craft, so the lossy
    // last-writer-wins behaviour is driven through the persisted form.
    let pairs = vec![
        ("c0ffee00".to_string(), "https://old.example".to_string()),
        ("c0ffee00".to_string(), "https://new.example".to_string()),
    ];
    let store = UrlStore::from_pairs(&pairs);
    assert_eq!(store.get("c0ffee00").as_deref(), Some("https://new.example"));
    assert_eq!(store.list().len(), 1);
}

#[test]
fn readding_same_url_keeps_one_entry() {
    let mut store = UrlStore::new();
    store.add("https://example.com");
    store.add("https://example.com");
    assert_eq!(store.list().len(), 1);
}

#[test]
fn from_pairs_round_trips_through_list() {
    let pairs = vec![
        ("11111111".to_string(), "https://one.example".to_string()),
        ("22222222".to_string(), "https://two.example".to_string()),
    ];
    let store = UrlStore::from_pairs(&pairs);
    let mut listed = store.list();
    listed.sort();
    assert_eq!(listed, pairs);
}

#[test]
fn apply_add_then_get_and_open() {
    let mut store = UrlStore::new();
    let outcome = apply_action(
        &mut store,
        &UrlAction::Add { url: "https://example.com".to_string() },
    );
    let code = match outcome {
        UrlOutcome::Added { code } => code,
        _ => panic!("add must report the new code"),
    };
    match apply_action(&mut store, &UrlAction::Get { code: code.clone() }) {
        UrlOutcome::Found { url } => assert_eq!(url, "https://example.com"),
        _ => panic!("get must find the stored URL"),
    }
    match apply_action(&mut store, &UrlAction::Open { code }) {
        UrlOutcome::OpenUrl { url } => assert_eq!(url, "https://example.com"),
        _ => panic!("open must hand the stored URL out"),
    }
    match apply_action(&mut store, &UrlAction::Get { code: "00000000".to_string() }) {
        UrlOutcome::NotFound => {}
        _ => panic!("an unknown code must report not-found"),
    }
}

#[test]
fn apply_list_reports_all_pairs() {
    let mut store = UrlStore::new();
    let code = store.add("https://example.com");
    match apply_action(&mut store, &UrlAction::List) {
        UrlOutcome::Listing { pairs } => {
            assert_eq!(pairs, vec![(code, "https://example.com".to_string())]);
        }
        _ => panic!("list must report the stored pairs"),
    }
}
