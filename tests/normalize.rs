use url_shortener::normalize::normalize;
use url_shortener::{Service, Url};

fn norm(raw: &str) -> Option<String> {
    let mut url = Url::from(raw);
    if Service::normalize_and_validate_url(&mut url) {
        Some(url.0)
    } else {
        assert_eq!(url.0, raw);
        None
    }
}

#[test]
fn plain_http_is_accepted() {
    assert_eq!(norm("http://example.com"), Some("example.com".to_string()));
}

#[test]
fn localhost_is_rejected() {
    assert_eq!(norm("http://localhost/test"), None);
}

#[test]
fn host_is_folded_and_www_dropped() {
    assert_eq!(
        norm("https://www.Example.com/Path"),
        Some("example.com/Path".to_string())
    );
}

#[test]
fn other_schemes_are_rejected() {
    assert_eq!(norm("ftp://example.com"), None);
    assert_eq!(norm("example.com"), None);
    assert_eq!(norm(""), None);
    assert_eq!(norm("HTTP://example.com"), None);
}

#[test]
fn one_letter_tld_is_rejected() {
    assert_eq!(norm("http://a.b"), None);
    assert_eq!(norm("http://a.bc"), Some("a.bc".to_string()));
}

#[test]
fn single_label_host_is_rejected() {
    assert_eq!(norm("http://example"), None);
    assert_eq!(norm("http://example./x"), None);
}

#[test]
fn local_suffix_is_rejected() {
    assert_eq!(norm("http://printer.local/status"), None);
    assert_eq!(norm("https://LOCALHOST"), None);
    assert_eq!(norm("http://localhost.com"), Some("localhost.com".to_string()));
}

#[test]
fn port_is_dropped_and_query_kept() {
    assert_eq!(
        norm("https://Shop.Example.org:8443/a/B?q=X&r=1"),
        Some("shop.example.org/a/B?q=X&r=1".to_string())
    );
}

#[test]
fn only_a_leading_www_label_is_dropped() {
    assert_eq!(norm("http://www.www.example.com"), Some("www.example.com".to_string()));
    assert_eq!(norm("http://wwwexample.com"), Some("wwwexample.com".to_string()));
    assert_eq!(norm("http://WWW.example.com/"), Some("example.com/".to_string()));
}

#[test]
fn normalize_returns_canonical_text() {
    assert_eq!(normalize("http://Ab.CD/eF"), Some("ab.cd/eF".to_string()));
    assert_eq!(normalize("http://ab.c"), None);
}
