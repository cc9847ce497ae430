use webcrawler::urls::{
    clean_query, extract_domain, follow_link, is_media_file, is_tracking_param, normalize_url,
    sort_pairs, strip_slash,
};

fn pair(k: &str, v: &str) -> (String, String) {
    (k.to_string(), v.to_string())
}

#[test]
fn fragment_is_dropped() {
    assert_eq!(normalize_url("https://en.wikipedia.org/wiki/A#top"), "https://en.wikipedia.org/wiki/A");
}

#[test]
fn only_tracking_params_leave_no_query() {
    assert_eq!(
        normalize_url("https://example.com/path?utm_source=x&utm_medium=y&fbclid=z"),
        "https://example.com/path"
    );
}

#[test]
fn deep_trailing_slash_is_stripped() {
    assert_eq!(normalize_url("https://example.com/a/b/"), "https://example.com/a/b");
}

#[test]
fn root_slash_is_kept() {
    assert_eq!(normalize_url("https://example.com/"), "https://example.com/");
    assert_eq!(normalize_url("https://example.com"), "https://example.com/");
}

#[test]
fn query_pairs_sorted_stably_by_key() {
    assert_eq!(normalize_url("https://x.org/p?b=2&a=1&b=1"), "https://x.org/p?a=1&b=2&b=1");
}

#[test]
fn tracking_pairs_removed_others_kept() {
    assert_eq!(
        normalize_url("https://x.org/p?utm_campaign=c&id=7&gclid=g"),
        "https://x.org/p?id=7"
    );
}

#[test]
fn unparsable_text_is_unchanged() {
    assert_eq!(normalize_url("not a url"), "not a url");
    assert_eq!(normalize_url("/relative/path/"), "/relative/path/");
}

#[test]
fn seeds_differing_in_utm_source_collapse() {
    let a = normalize_url("https://en.wikipedia.org/wiki/B?utm_source=one");
    let b = normalize_url("https://en.wikipedia.org/wiki/B?utm_source=two");
    assert_eq!(a, b);
    assert_eq!(a, "https://en.wikipedia.org/wiki/B");
}

#[test]
fn normalize_is_idempotent_on_examples() {
    for u in [
        "https://en.wikipedia.org/wiki/A#top",
        "https://x.org/p?b=2&a=1&b=1",
        "https://example.com/a/b/",
        "https://example.com/",
        "https://x.org/p?utm_source=a&q=hello%20world",
        "garbage",
    ] {
        let once = normalize_url(u);
        assert_eq!(normalize_url(&once), once, "input {}", u);
    }
}

#[test]
fn tracking_keys_recognised() {
    for k in ["utm_source", "utm_medium", "utm_campaign", "utm_term", "utm_content", "fbclid", "gclid", "msclkid", "mc_cid", "mc_eid"] {
        assert!(is_tracking_param(k), "{}", k);
    }
    assert!(!is_tracking_param("utm"));
    assert!(!is_tracking_param("id"));
}

#[test]
fn clean_query_builds_sorted_text() {
    let pairs = vec![pair("z", "1"), pair("utm_term", "t"), pair("a", "x y")];
    assert_eq!(clean_query(&pairs), Some("a=x y&z=1".to_string()));
    assert_eq!(clean_query(&vec![pair("utm_source", "s")]), None);
    assert_eq!(clean_query(&vec![]), None);
}

#[test]
fn sort_keeps_order_of_equal_keys() {
    let pairs = vec![pair("b", "1"), pair("a", "2"), pair("b", "0"), pair("a", "1")];
    let sorted = sort_pairs(&pairs);
    assert_eq!(sorted, vec![pair("a", "2"), pair("a", "1"), pair("b", "1"), pair("b", "0")]);
}

#[test]
fn strip_slash_counts_all_slashes() {
    assert_eq!(strip_slash("https://h.org/x/"), "https://h.org/x");
    assert_eq!(strip_slash("https://h.org/"), "https://h.org/");
    assert_eq!(strip_slash("a/b/c/d"), "a/b/c/d");
    assert_eq!(strip_slash(""), "");
}

#[test]
fn media_files_detected_case_insensitively() {
    assert!(is_media_file("https://en.wikipedia.org/img/Photo.JPG"));
    assert!(is_media_file("https://en.wikipedia.org/doc.pdf?download=1"));
    assert!(is_media_file("https://x.org/a.tar.gz"));
    assert!(!is_media_file("https://en.wikipedia.org/wiki/Page"));
    assert!(!is_media_file("https://x.org/page?file=a.png"));
}

#[test]
fn follow_link_resolves_filters_and_normalises() {
    let base = "https://en.wikipedia.org/wiki/Main";
    let suffix = "wikipedia.org";
    assert_eq!(follow_link(base, "/wiki/Foo", suffix), Some("https://en.wikipedia.org/wiki/Foo".to_string()));
    assert_eq!(
        follow_link(base, "https://de.wikipedia.org/wiki/Bar/?utm_source=z#f", suffix),
        Some("https://de.wikipedia.org/wiki/Bar".to_string())
    );
    assert_eq!(follow_link(base, "https://example.com/x", suffix), None);
    assert_eq!(follow_link(base, "/static/logo.png", suffix), None);
    assert_eq!(follow_link(base, "mailto:someone@wikipedia.org", suffix), None);
    assert_eq!(follow_link(base, "ftp://ftp.wikipedia.org/file", suffix), None);
}

#[test]
fn ip_hosts_match_no_allowed_domain() {
    assert_eq!(follow_link("http://10.0.0.1/", "http://10.0.0.2/a", "wikipedia.org"), None);
    assert_eq!(follow_link("http://10.0.0.1/", "http://10.0.0.2/a", ""), None);
}

#[test]
fn all_deep_trailing_slashes_stripped() {
    assert_eq!(normalize_url("https://a.org/x//"), "https://a.org/x");
    assert_eq!(strip_slash("https://h.org/x///"), "https://h.org/x");
    assert_eq!(strip_slash("https://h.org//"), "https://h.org/");
    let once = normalize_url("https://a.org/b//");
    assert_eq!(normalize_url(&once), once);
}

#[test]
fn host_extraction() {
    assert_eq!(extract_domain("https://en.wikipedia.org/wiki/A"), Some("en.wikipedia.org".to_string()));
    assert_eq!(extract_domain("mailto:a@b.c"), None);
    assert_eq!(extract_domain("nonsense"), None);
}

