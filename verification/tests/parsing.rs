use base64::Engine;
use sublinkscan::dispatch::detect_format_and_parse;
use sublinkscan::parsers::{
    parse_clash_yaml, parse_v2ray_json, parse_vmess, parse_protocol_url, parse_ssr,
    parse_inline_json, parse_generic,
};

fn b64(s: &str) -> String {
    base64::engine::general_purpose::STANDARD.encode(s.as_bytes())
}

#[test]
fn clash_yaml_extracts_server_port_pairs() {
    let body = "proxies:\n  - {name: a, server: h1.test, port: 443}\n  - {name: b, server: h2.test, port: 8080}\n";
    let nodes = parse_clash_yaml(body);
    assert_eq!(nodes.len(), 2);
    assert_eq!(nodes[0].host, "h1.test");
    assert_eq!(nodes[0].port, 443);
    assert_eq!(nodes[1].host, "h2.test");
    assert_eq!(nodes[1].port, 8080);
}

#[test]
fn clash_yaml_drops_out_of_range_port() {
    let body = "proxies:\n  - {server: h1.test, port: 99999}\n  - {server: h2.test, port: 80}\n";
    let nodes = parse_clash_yaml(body);
    assert_eq!(nodes.len(), 1);
    assert_eq!(nodes[0].host, "h2.test");
}

#[test]
fn v2ray_json_walks_outbounds_vnext() {
    let body = r#"{"outbounds": [{"settings": {"vnext": [{"address": "v.test", "port": 443}]}}]}"#;
    let nodes = parse_v2ray_json(body);
    assert_eq!(nodes.len(), 1);
    assert_eq!(nodes[0].host, "v.test");
    assert_eq!(nodes[0].port, 443);
}

#[test]
fn vmess_payload_decodes_to_node() {
    let payload = b64(r#"{"add": "vm.test", "port": 443}"#);
    let body = format!("vmess://{}", payload);
    let nodes = parse_vmess(&body);
    assert_eq!(nodes.len(), 1);
    assert_eq!(nodes[0].host, "vm.test");
    assert_eq!(nodes[0].port, 443);
}

#[test]
fn vmess_bad_base64_is_dropped_not_fatal() {
    let good = b64(r#"{"add": "vm.test", "port": 80}"#);
    let body = format!("vmess://!!!! vmess://{}", good);
    let nodes = parse_vmess(&body);
    assert_eq!(nodes.len(), 1);
    assert_eq!(nodes[0].host, "vm.test");
}

#[test]
fn vless_ipv6_host_splits_at_rightmost_colon() {
    let nodes = parse_protocol_url("vless://user@2001:db8::1:8443", "vless");
    assert_eq!(nodes.len(), 1);
    assert_eq!(nodes[0].host, "2001:db8::1");
    assert_eq!(nodes[0].port, 8443);
}

#[test]
fn trojan_and_ss_parse_their_schemes() {
    let t = parse_protocol_url("trojan://pw@t.test:443", "trojan");
    assert_eq!(t.len(), 1);
    assert_eq!(t[0].host, "t.test");
    assert_eq!(t[0].port, 443);
    let s = parse_protocol_url("ss://secret@s.test:8388", "ss");
    assert_eq!(s.len(), 1);
    assert_eq!(s[0].host, "s.test");
    assert_eq!(s[0].port, 8388);
}

#[test]
fn unknown_protocol_yields_nothing() {
    let nodes = parse_protocol_url("socks://u@h.test:1080", "socks");
    assert_eq!(nodes.len(), 0);
}

#[test]
fn protocol_url_with_unparsable_port_is_dropped() {
    let nodes = parse_protocol_url("vless://u@h.test:99999", "vless");
    assert_eq!(nodes.len(), 0);
}

#[test]
fn ssr_payload_needs_six_fields() {
    let good = b64("ssr.test:8388:origin:aes-256-cfb:plain:cGFzcw");
    let short = b64("h:80:x");
    let body = format!("ssr://{} ssr://{}", good, short);
    let nodes = parse_ssr(&body);
    assert_eq!(nodes.len(), 1);
    assert_eq!(nodes[0].host, "ssr.test");
    assert_eq!(nodes[0].port, 8388);
}

#[test]
fn inline_object_reads_server_then_address() {
    let body = "- {\"server\": \"i1.test\", \"port\": 80}\n- {\"address\": \"i2.test\", \"port\": 81}";
    let nodes = parse_inline_json(body);
    assert_eq!(nodes.len(), 2);
    assert_eq!(nodes[0].host, "i1.test");
    assert_eq!(nodes[0].port, 80);
    assert_eq!(nodes[1].host, "i2.test");
    assert_eq!(nodes[1].port, 81);
}

#[test]
fn generic_parser_finds_bare_host_port() {
    let nodes = parse_generic("alpha.test:8080 text 10.0.0.1:9090");
    assert_eq!(nodes.len(), 2);
    assert_eq!(nodes[0].host, "alpha.test");
    assert_eq!(nodes[0].port, 8080);
    assert_eq!(nodes[1].host, "10.0.0.1");
    assert_eq!(nodes[1].port, 9090);
}

#[test]
fn generic_parser_needs_two_digits_and_drops_oversized() {
    assert_eq!(parse_generic("h.test:7").len(), 0);
    assert_eq!(parse_generic("h.test:70000").len(), 0);
    let capped = parse_generic("h.test:123456");
    assert_eq!(capped.len(), 1);
    assert_eq!(capped[0].port, 12345);
}

#[test]
fn dispatcher_never_returns_port_above_u16() {
    let body = "proxies:\n  - {server: h.test, port: 99999}\nx.test:70000 y.test:80";
    let nodes = detect_format_and_parse(body);
    for n in &nodes {
        assert!(n.port <= 65535);
    }
    assert_eq!(nodes.len(), 1);
    assert_eq!(nodes[0].host, "y.test");
}
