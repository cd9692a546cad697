use base64::Engine;
use sublinkscan::config::{MAX_LINES, MAX_TEXT_SIZE};
use sublinkscan::dispatch::{detect_format_and_parse, parse_subscription_safe};
use sublinkscan::limit::safe_limit_text;
use sublinkscan::models::{Node, UrlResult, NodeResult};
use sublinkscan::probe::{resolve_probe_status, working_urls, body_nodes, merge_unique_nodes};

#[test]
fn structured_config_wins_over_uri_scheme() {
    let payload = base64::engine::general_purpose::STANDARD.encode(
        r#"{"add": "vm.test", "port": 1}"#.as_bytes(),
    );
    let body = format!(
        "proxies:\n  - {{server: yaml.test, port: 443}}\nextra: vmess://{}\n",
        payload
    );
    let nodes = detect_format_and_parse(&body);
    assert_eq!(nodes.len(), 1);
    assert_eq!(nodes[0].host, "yaml.test");
    assert_eq!(nodes[0].port, 443);
}

#[test]
fn empty_parser_yield_falls_through_to_later_parser() {
    // The structured-config trigger fires, but every port is out of range, so
    // the result must come from the URI scheme parser further down the chain.
    let payload = base64::engine::general_purpose::STANDARD.encode(
        r#"{"add": "vm.test", "port": 443}"#.as_bytes(),
    );
    let body = format!(
        "proxies:\n  - {{server: yaml.test, port: 99999}}\nextra: vmess://{}\n",
        payload
    );
    let nodes = detect_format_and_parse(&body);
    assert_eq!(nodes.len(), 1);
    assert_eq!(nodes[0].host, "vm.test");
    assert_eq!(nodes[0].port, 443);
}

#[test]
fn dispatcher_reads_router_config_behind_brace() {
    let body = r#"{"outbounds": [{"settings": {"vnext": [{"address": "v.test", "port": 443}]}}]}"#;
    let nodes = detect_format_and_parse(body);
    assert_eq!(nodes.len(), 1);
    assert_eq!(nodes[0].host, "v.test");
    assert_eq!(nodes[0].port, 443);
}

#[test]
fn dispatcher_reaches_the_short_uri_scheme() {
    let nodes = detect_format_and_parse("try ss://secret@s.test:8388 today");
    assert_eq!(nodes.len(), 1);
    assert_eq!(nodes[0].host, "s.test");
    assert_eq!(nodes[0].port, 8388);
}

#[test]
fn whitespace_only_body_yields_nothing() {
    assert_eq!(detect_format_and_parse("").len(), 0);
    assert_eq!(detect_format_and_parse(" \t\r\n ").len(), 0);
    assert_eq!(parse_subscription_safe("").len(), 0);
}

#[test]
fn unicode_whitespace_only_body_yields_nothing() {
    assert_eq!(detect_format_and_parse("\u{a0}\u{2003}\u{3000}").len(), 0);
}

#[test]
fn sixty_thousand_lines_are_cut_to_the_cap() {
    let mut body = String::new();
    for i in 0..60000 {
        body.push_str("line");
        body.push_str(&i.to_string());
        body.push('\n');
    }
    let limited = safe_limit_text(&body);
    assert_eq!(limited.lines().count(), MAX_LINES);
    assert!(limited.ends_with("line49999"));
}

#[test]
fn oversized_body_is_cut_to_the_size_cap_first() {
    let body = "x".repeat(MAX_TEXT_SIZE + 10 * 1024 * 1024);
    let limited = safe_limit_text(&body);
    assert_eq!(limited.len(), MAX_TEXT_SIZE);
}

#[test]
fn size_cap_counts_bytes_and_cuts_at_a_character_boundary() {
    // Twenty million three-byte characters: 60 MB. The cap is not a multiple
    // of three, so the cut lands two bytes short of it rather than splitting a
    // character.
    let body = "\u{20ac}".repeat(20 * 1024 * 1024);
    assert_eq!(body.len(), 60 * 1024 * 1024);
    let limited = safe_limit_text(&body);
    assert_eq!(limited.len(), MAX_TEXT_SIZE - 2);
    assert_eq!(limited.chars().count(), MAX_TEXT_SIZE / 3);
}

#[test]
fn size_cap_counts_bytes_of_two_byte_characters() {
    // Thirty million two-byte characters: 60 MB of bytes, truncated to 50 MB.
    let body = "\u{e9}".repeat(30 * 1024 * 1024);
    assert_eq!(body.len(), 60 * 1024 * 1024);
    let limited = safe_limit_text(&body);
    assert_eq!(limited.len(), MAX_TEXT_SIZE);
}

#[test]
fn body_under_both_caps_is_unchanged() {
    let body = "a\r\nb\nc";
    assert_eq!(safe_limit_text(body), body);
}

#[test]
fn probe_uses_accepted_head_status() {
    assert_eq!(resolve_probe_status(Some(200), None), Some(200));
    assert_eq!(resolve_probe_status(Some(301), None), Some(301));
}

#[test]
fn rejected_or_failed_head_defers_to_get() {
    assert_eq!(resolve_probe_status(Some(500), Some(200)), Some(200));
    assert_eq!(resolve_probe_status(Some(404), None), None);
    assert_eq!(resolve_probe_status(None, Some(418)), Some(418));
    assert_eq!(resolve_probe_status(None, None), None);
}

#[test]
fn url_result_records_status_and_latency_together() {
    let ok = UrlResult::from_outcome("http://a.test".to_string(), Some((200, 37)));
    assert_eq!(ok.status, Some(200));
    assert_eq!(ok.latency, Some(37));
    let failed = UrlResult::from_outcome("http://b.test".to_string(), None);
    assert_eq!(failed.status, None);
    assert_eq!(failed.latency, None);
    let node_ok = NodeResult::from_outcome(Node::new("h.test".to_string(), 80), Some((204, 5)));
    assert_eq!(node_ok.status, Some(204));
    assert_eq!(node_ok.latency, Some(5));
}

#[test]
fn only_status_exactly_200_is_working() {
    let results = vec![
        UrlResult::from_outcome("http://a.test".to_string(), Some((200, 10))),
        UrlResult::from_outcome("http://b.test".to_string(), Some((301, 11))),
        UrlResult::from_outcome("http://c.test".to_string(), None),
        UrlResult::from_outcome("http://d.test".to_string(), Some((200, 12))),
    ];
    let working = working_urls(results);
    assert_eq!(working.len(), 2);
    assert_eq!(working[0].url, "http://a.test");
    assert_eq!(working[1].url, "http://d.test");
}

#[test]
fn failed_fetch_contributes_zero_nodes_but_url_stays_working() {
    // The URL probed at 200 stays in the working set whatever the fetch does.
    let probe = UrlResult::from_outcome("http://a.test".to_string(), Some((200, 10)));
    let working = working_urls(vec![probe]);
    assert_eq!(working.len(), 1);
    // Its fetch errored: that body contributes no nodes.
    let nodes = body_nodes(&None);
    assert_eq!(nodes.len(), 0);
    // A sibling whose fetch succeeded still contributes.
    let sibling = body_nodes(&Some("h.test:8080".to_string()));
    assert_eq!(sibling.len(), 1);
    assert_eq!(sibling[0].host, "h.test");
}

#[test]
fn nodes_from_all_bodies_are_merged_without_duplicates() {
    let a = detect_format_and_parse("h.test:8080 i.test:9090");
    let b = detect_format_and_parse("h.test:8080");
    let merged = merge_unique_nodes(vec![a, b]);
    assert_eq!(merged.len(), 2);
    assert_eq!(merged[0].host, "h.test");
    assert_eq!(merged[1].host, "i.test");
}
