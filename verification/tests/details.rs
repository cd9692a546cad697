use sublinkscan::config::{Args, MAX_IO_WORKERS, MAX_LINES, MAX_PARSE_WORKERS};
use sublinkscan::digits::parse_port;
use sublinkscan::limit::safe_limit_text;
use sublinkscan::parsers::{parse_generic, parse_protocol_url};

#[test]
fn port_parse_follows_unsigned_parse_semantics() {
    let chars = |s: &str| s.chars().collect::<Vec<char>>();
    assert_eq!(parse_port(&chars("80")), Some(80));
    assert_eq!(parse_port(&chars("+80")), Some(80));
    assert_eq!(parse_port(&chars("0080")), Some(80));
    assert_eq!(parse_port(&chars("65535")), Some(65535));
    assert_eq!(parse_port(&chars("65536")), None);
    assert_eq!(parse_port(&chars("")), None);
    assert_eq!(parse_port(&chars("+")), None);
    assert_eq!(parse_port(&chars("8 0")), None);
    assert_eq!(parse_port(&chars("-80")), None);
    assert_eq!(parse_port(&chars("99999999999999999999")), None);
}

#[test]
fn uri_port_with_plus_sign_still_parses() {
    let nodes = parse_protocol_url("vless://u@h.test:+80", "vless");
    assert_eq!(nodes.len(), 1);
    assert_eq!(nodes[0].host, "h.test");
    assert_eq!(nodes[0].port, 80);
}

#[test]
fn generic_match_takes_at_most_five_digits() {
    let nodes = parse_generic("h.test:080");
    assert_eq!(nodes.len(), 1);
    assert_eq!(nodes[0].port, 80);
}

#[test]
fn line_cut_strips_carriage_returns_like_lines_does() {
    let mut body = String::new();
    for _ in 0..(MAX_LINES + 2) {
        body.push_str("x\r\n");
    }
    let limited = safe_limit_text(&body);
    assert_eq!(limited.lines().count(), MAX_LINES);
    assert!(!limited.contains('\r'));
}

#[test]
fn line_cut_drops_the_unterminated_trailing_line() {
    let mut body = "x\n".repeat(MAX_LINES);
    body.push('y');
    let limited = safe_limit_text(&body);
    assert_eq!(limited.lines().count(), MAX_LINES);
    assert!(!limited.contains('y'));
}

#[test]
fn line_cut_where_the_last_kept_line_is_empty() {
    // The line at the cap is empty, so the joined text ends in a line feed and
    // splitting it again counts one line fewer.
    let mut body = "x\n".repeat(MAX_LINES - 1);
    body.push('\n');
    body.push_str(&"z\n".repeat(5));
    let limited = safe_limit_text(&body);
    assert_eq!(limited.lines().count(), MAX_LINES - 1);
    assert!(limited.ends_with('\n'));
    assert!(!limited.contains('z'));
}

#[test]
fn argument_record_carries_the_defaults() {
    let args = Args::with_input("nodes.txt".to_string());
    assert_eq!(args.input, "nodes.txt");
    assert_eq!(args.url_out, "working_links.md");
    assert_eq!(args.node_out, "node_latencies.md");
    assert!(!args.verbose);
    assert_eq!(args.max_io_workers, MAX_IO_WORKERS);
    assert_eq!(args.max_parse_workers, MAX_PARSE_WORKERS);
}
