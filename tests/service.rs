use url_shortener::cache::CachableStorage;
use url_shortener::codec::encode;
use url_shortener::service::{Resolve, Shorten};
use url_shortener::{SeqId, Service, Url};

fn code_of(s: Shorten) -> String {
    match s {
        Shorten::Code(c) => c,
        other => panic!("expected a code, got {:?}", other),
    }
}

#[test]
fn shorten_rejects_invalid_url() {
    let mut svc = Service::new();
    assert!(matches!(svc.process_post(Url::from("ftp://example.com")), Shorten::Rejected));
}

#[test]
fn shorten_asks_store_then_inserts() {
    let mut svc = Service::new();
    let step = svc.process_post(Url::from("https://www.Example.com/Path"));
    let url = match step {
        Shorten::LookUp(u) => u,
        other => panic!("{:?}", other),
    };
    assert_eq!(url.0, "example.com/Path");
    let url = match svc.post_looked_up(url, None) {
        Shorten::Insert(u) => u,
        other => panic!("{:?}", other),
    };
    assert_eq!(url.0, "example.com/Path");
    assert_eq!(code_of(svc.post_inserted(url, Some(SeqId(1337)))), "LZ");
}

#[test]
fn shorten_twice_gives_same_code_from_cache() {
    let mut svc = Service::new();
    let url = match svc.process_post(Url::from("http://example.com/a")) {
        Shorten::LookUp(u) => u,
        other => panic!("{:?}", other),
    };
    let first = code_of(svc.post_looked_up(url, Some(SeqId(62))));
    assert_eq!(first, "10");
    // The second shorten is answered by the cache, without a store request.
    let second = code_of(svc.process_post(Url::from("https://www.EXAMPLE.com/a")));
    assert_eq!(first, second);
}

#[test]
fn noop_insert_requeries_the_store() {
    let mut svc = Service::new();
    let url = Url::from("example.com");
    let url = match svc.post_inserted(url, None) {
        Shorten::LookUp(u) => u,
        other => panic!("{:?}", other),
    };
    assert_eq!(code_of(svc.post_looked_up(url, Some(SeqId(5)))), "5");
}

#[test]
fn negative_store_identifier_is_a_fault() {
    let mut svc = Service::new();
    assert!(matches!(svc.post_looked_up(Url::from("a.bc"), Some(SeqId(-1))), Shorten::Fault));
    assert!(matches!(svc.post_inserted(Url::from("a.bc"), Some(SeqId(-3))), Shorten::Fault));
}

#[test]
fn resolve_after_shorten_is_a_cache_hit() {
    let mut svc = Service::new();
    let url = match svc.process_post(Url::from("https://www.Example.com/Path")) {
        Shorten::LookUp(u) => u,
        other => panic!("{:?}", other),
    };
    let code = code_of(svc.post_looked_up(url, Some(SeqId(7))));
    match svc.process_get(&code) {
        Resolve::Redirect(to) => assert_eq!(to, "https://example.com/Path"),
        other => panic!("{:?}", other),
    }
}

#[test]
fn resolve_invalid_code() {
    let mut svc = Service::new();
    assert!(matches!(svc.process_get("not-a-code"), Resolve::Invalid));
    assert!(matches!(svc.process_get(""), Resolve::Invalid));
}

#[test]
fn resolve_after_restart_goes_to_store() {
    // A fresh service has an empty cache, as after a restart.
    let mut svc = Service::new();
    let code = encode(SeqId(3844));
    assert_eq!(code, "100");
    let id = match svc.process_get(&code) {
        Resolve::LookUp(id) => id,
        other => panic!("{:?}", other),
    };
    assert_eq!(id, SeqId(3844));
    match svc.get_looked_up(id, Some(Url::from("example.com/x"))) {
        Resolve::Redirect(to) => assert_eq!(to, "https://example.com/x"),
        other => panic!("{:?}", other),
    }
    // Now cached.
    match svc.process_get("100") {
        Resolve::Redirect(to) => assert_eq!(to, "https://example.com/x"),
        other => panic!("{:?}", other),
    }
}

#[test]
fn resolve_unknown_is_not_found_and_not_cached() {
    let mut svc = Service::new();
    assert!(matches!(svc.get_looked_up(SeqId(9), None), Resolve::NotFound));
    assert!(matches!(svc.process_get("9"), Resolve::LookUp(SeqId(9))));
    assert!(matches!(svc.get_looked_up(SeqId(-9), Some(Url::from("a.bc"))), Resolve::NotFound));
}

#[test]
fn cache_both_directions() {
    let mut cache = CachableStorage::new();
    assert!(cache.get(SeqId(4)).is_none());
    assert!(cache.get_key_by_value(&Url::from("a.bc/d")).is_none());
    assert_eq!(cache.insert(Url::from("a.bc/d"), SeqId(4)), SeqId(4));
    assert_eq!(cache.get(SeqId(4)).map(|u| u.0), Some("a.bc/d".to_string()));
    assert_eq!(cache.get_key_by_value(&Url::from("a.bc/d")), Some(SeqId(4)));
    assert!(cache.get(SeqId(5)).is_none());
}

#[test]
fn cache_fills_from_store_answers() {
    let mut cache = CachableStorage::new();
    assert!(cache.get_from_store(SeqId(1), None).is_none());
    assert!(cache.get(SeqId(1)).is_none());
    let u = cache.get_from_store(SeqId(1), Some(Url::from("x.yz")));
    assert_eq!(u.map(|u| u.0), Some("x.yz".to_string()));
    assert_eq!(cache.get_key_by_value(&Url::from("x.yz")), Some(SeqId(1)));
    assert_eq!(cache.get_key_from_store(Url::from("p.qr"), Some(SeqId(2))), Some(SeqId(2)));
    assert_eq!(cache.get(SeqId(2)).map(|u| u.0), Some("p.qr".to_string()));
    assert_eq!(cache.get_key_from_store(Url::from("n.eg"), None), None);
    assert_eq!(cache.get_key_by_value(&Url::from("n.eg")), None);
}

#[test]
fn conversions() {
    assert_eq!(SeqId::from(12), SeqId(12));
    assert_eq!(Url::from("a").0, "a");
    assert_eq!(Url::from("b".to_string()).0, "b");
    assert_eq!(String::from(Url::from("c")), "c");
}
