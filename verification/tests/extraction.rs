use sublinkscan::extract::{extract_urls, candidate_urls};
use sublinkscan::dedup::{dedup_urls, dedup_nodes};
use sublinkscan::models::Node;

#[test]
fn duplicate_url_collapses_to_one_candidate() {
    let urls = candidate_urls("see http://a.test/sub and http://a.test/sub");
    assert_eq!(urls.len(), 1);
    assert_eq!(urls[0], "http://a.test/sub");
}

#[test]
fn extraction_keeps_duplicates_before_dedup() {
    let urls = extract_urls("see http://a.test/sub and http://a.test/sub");
    assert_eq!(urls.len(), 2);
    assert_eq!(urls[0], "http://a.test/sub");
    assert_eq!(urls[1], "http://a.test/sub");
}

#[test]
fn extraction_is_idempotent_on_the_candidate_set() {
    let text = "http://a.test/x https://b.test/y http://a.test/x";
    let once = candidate_urls(text);
    let twice = dedup_urls(candidate_urls(text));
    assert_eq!(once, twice);
    assert_eq!(once.len(), 2);
}

#[test]
fn url_match_stops_at_whitespace_and_paren() {
    let urls = extract_urls("(http://a.test/page) https://b.test/q?x=1\nrest");
    assert_eq!(urls, vec!["http://a.test/page".to_string(), "https://b.test/q?x=1".to_string()]);
}

#[test]
fn unicode_whitespace_ends_a_url_match() {
    let urls = extract_urls("http://a.test\u{a0}tail and http://b.test\u{2009}x");
    assert_eq!(urls, vec!["http://a.test".to_string(), "http://b.test".to_string()]);
}

#[test]
fn https_scheme_is_matched_whole() {
    let urls = extract_urls("xhttps://h.test/a");
    assert_eq!(urls, vec!["https://h.test/a".to_string()]);
}

#[test]
fn scheme_without_body_is_no_match() {
    let urls = extract_urls("http:// and nothing");
    assert_eq!(urls.len(), 0);
}

#[test]
fn candidate_order_is_first_occurrence() {
    let urls = candidate_urls("http://b.test http://a.test http://b.test");
    assert_eq!(urls, vec!["http://b.test".to_string(), "http://a.test".to_string()]);
}

#[test]
fn nodes_with_same_host_different_port_are_distinct() {
    let a = Node::new("h.test".to_string(), 80);
    let b = Node::new("h.test".to_string(), 81);
    let c = Node::new("h.test".to_string(), 80);
    assert!(a != b);
    assert!(a == c);
    let kept = dedup_nodes(vec![a, b, c]);
    assert_eq!(kept.len(), 2);
    assert_eq!(kept[0].port, 80);
    assert_eq!(kept[1].port, 81);
}

#[test]
fn node_equality_is_case_sensitive_on_host() {
    let a = Node::new("Host.test".to_string(), 80);
    let b = Node::new("host.test".to_string(), 80);
    assert!(a != b);
    assert_eq!(dedup_nodes(vec![a, b]).len(), 2);
}

#[test]
fn node_url_synthesizes_address() {
    let n = Node::new("h.test".to_string(), 8080);
    assert_eq!(n.url(), "http://h.test:8080");
    let v6 = Node::new("2001:db8::1".to_string(), 443);
    assert_eq!(v6.url(), "http://2001:db8::1:443");
}
