//! The per-encoding parsers: each one turns one body into the nodes its
//! encoding describes, dropping any single match that fails to decode and
//! keeping every port within the sixteen-bit range.

use vstd::prelude::*;
use crate::config::{MAX_PROXIES_PER_CONFIG, MAX_HOSTPORT_MATCHES, MAX_JSON_MATCHES};
use crate::digits::parse_u16_spec;
use crate::models::Node;
use crate::scan::{
    payload_matches, userinfo_matches, inline_matches, hostport_matches, host_port_of,
    split_colon, scan_payloads, scan_userinfo_hosts, scan_inline_objects, scan_hostports,
    split_host_port, split_on_colon,
};
use crate::text::{str_chars, chars_to_string, chars_eq};
use crate::trusted::{
    yaml_proxies_of, v2ray_vnext_of, b64_utf8_of, vmess_fields_of, inline_fields_of,
    yaml_proxy_entries, v2ray_vnext_entries, decode_b64_utf8, vmess_json_fields,
    inline_json_fields,
};

verus! {

/// The sequence cut to its first `n` elements, where it is longer.
pub open spec fn capped<T>(s: Seq<T>, n: int) -> Seq<T> {
    if s.len() > n {
        s.take(n)
    } else {
        s
    }
}

/// The nodes among a list of field pairs: one node per entry whose host is a
/// string, whose port is an integer, and whose port fits sixteen bits.
pub open spec fn entry_nodes(es: Seq<(Option<Seq<char>>, Option<u64>)>) -> Seq<(Seq<char>, u16)>
    decreases es.len(),
{
    if es.len() == 0 {
        Seq::empty()
    } else {
        let rest = entry_nodes(es.drop_last());
        match es.last() {
            (Some(h), Some(p)) => if p <= 65535 {
                rest.push((h, p as u16))
            } else {
                rest
            },
            _ => rest,
        }
    }
}

/// What the structured-config parser yields on a body: the `server`/`port`
/// pairs of the first `MAX_PROXIES_PER_CONFIG` entries of its `proxies`
/// sequence, ports above 65535 dropped.
pub open spec fn clash_nodes_spec(t: Seq<char>) -> Seq<(Seq<char>, u16)> {
    entry_nodes(capped(yaml_proxies_of(t), MAX_PROXIES_PER_CONFIG as int))
}

/// Reads the body as a structured config and extracts its proxy entries.
pub fn parse_clash_yaml(text: &str) -> (r: Vec<Node>)
    ensures
        r.deep_view() == clash_nodes_spec(text@),
{
    let entries = yaml_proxy_entries(text);
    let n: usize = if entries.len() > MAX_PROXIES_PER_CONFIG {
        MAX_PROXIES_PER_CONFIG
    } else {
        entries.len()
    };
    let ghost es = capped(yaml_proxies_of(text@), MAX_PROXIES_PER_CONFIG as int);
    proof {
        assert(es =~= entries.deep_view().take(n as int));
    }
    let r = entry_nodes_exec(&entries, n, Ghost(es));
    r
}

/// What the router-config parser yields on a body: the `address`/`port` pairs
/// under `outbounds[].settings.vnext[]`, ports above 65535 dropped.
pub open spec fn v2ray_nodes_spec(t: Seq<char>) -> Seq<(Seq<char>, u16)> {
    entry_nodes(v2ray_vnext_of(t))
}

/// Reads the body as a router config and extracts its vnext entries.
pub fn parse_v2ray_json(text: &str) -> (r: Vec<Node>)
    ensures
        r.deep_view() == v2ray_nodes_spec(text@),
{
    let entries = v2ray_vnext_entries(text);
    let n: usize = entries.len();
    let ghost es = v2ray_vnext_of(text@);
    proof {
        assert(es =~= entries.deep_view().take(n as int));
    }
    let r = entry_nodes_exec(&entries, n, Ghost(es));
    r
}

/// Walks the first `n` entries and keeps those with a host, a port, and the
/// port within range.
fn entry_nodes_exec(
    entries: &Vec<(Option<String>, Option<u64>)>,
    n: usize,
    es: Ghost<Seq<(Option<Seq<char>>, Option<u64>)>>,
) -> (r: Vec<Node>)
    requires
        n <= entries@.len(),
        es@ == entries.deep_view().take(n as int),
    ensures
        r.deep_view() == entry_nodes(es@),
{
    let mut r: Vec<Node> = Vec::new();
    let mut i: usize = 0;
    while i < n
        invariant
            n <= entries@.len(),
            es@ == entries.deep_view().take(n as int),
            0 <= i <= n,
            r.deep_view() == entry_nodes(es@.take(i as int)),
        decreases n - i,
    {
        let ghost prev = r.deep_view();
        let e = &entries[i];
        match (&e.0, e.1) {
            (Some(h), Some(p)) => {
                if p <= 65535 {
                    r.push(Node::new(h.clone(), p as u16));
                }
            },
            _ => {},
        }
        proof {
            assert(es@.take(i + 1).drop_last() =~= es@.take(i as int));
            assert(es@.take(i + 1).last() == entries.deep_view()[i as int]);
            assert(entries.deep_view()[i as int] == entries@[i as int].deep_view());
            assert(r.deep_view() =~~= entry_nodes(es@.take(i + 1)));
        }
        i += 1;
    }
    assert(es@.take(n as int) =~= es@);
    r
}

/// What one base64 URI payload contributes: the `add`/`port` fields of the
/// decoded JSON object, where the payload decodes, the object parses, and the
/// port fits.
pub open spec fn vmess_payload_nodes(ps: Seq<Seq<char>>) -> Seq<(Seq<char>, u16)>
    decreases ps.len(),
{
    if ps.len() == 0 {
        Seq::empty()
    } else {
        let rest = vmess_payload_nodes(ps.drop_last());
        match b64_utf8_of(ps.last()) {
            Some(txt) => match vmess_fields_of(txt) {
                (Some(h), Some(p)) => if p <= 65535 {
                    rest.push((h, p as u16))
                } else {
                    rest
                },
                _ => rest,
            },
            None => rest,
        }
    }
}

/// What the single-URI scheme parser for base64 payloads yields on a body.
pub open spec fn vmess_nodes_spec(t: Seq<char>) -> Seq<(Seq<char>, u16)> {
    vmess_payload_nodes(payload_matches(t, "vmess://"@, 0))
}

/// Extracts every `vmess://` payload, decodes it, and reads host and port out
/// of the decoded object.
pub fn parse_vmess(text: &str) -> (r: Vec<Node>)
    ensures
        r.deep_view() == vmess_nodes_spec(text@),
{
    let cs = str_chars(text);
    let lit = str_chars("vmess://");
    let payloads = scan_payloads(cs.as_slice(), lit.as_slice());
    let ghost ps = payload_matches(text@, "vmess://"@, 0);
    let n: usize = payloads.len();
    let mut r: Vec<Node> = Vec::new();
    let mut i: usize = 0;
    while i < n
        invariant
            n == payloads@.len(),
            payloads.deep_view() == ps,
            0 <= i <= n,
            r.deep_view() == vmess_payload_nodes(ps.take(i as int)),
        decreases n - i,
    {
        let ptxt = chars_to_string(payloads[i].as_slice());
        assert(ptxt@ == ps[i as int]);
        match decode_b64_utf8(ptxt.as_str()) {
            Some(json) => {
                let fields = vmess_json_fields(json.as_str());
                match (fields.0, fields.1) {
                    (Some(h), Some(p)) => {
                        if p <= 65535 {
                            r.push(Node::new(h, p as u16));
                        }
                    },
                    _ => {},
                }
            },
            None => {},
        }
        proof {
            assert(ps.take(i + 1).drop_last() =~= ps.take(i as int));
            assert(ps.take(i + 1).last() == ps[i as int]);
            assert(r.deep_view() =~~= vmess_payload_nodes(ps.take(i + 1)));
        }
        i += 1;
    }
    assert(ps.take(n as int) =~= ps);
    r
}

/// What one user-info URI match contributes: its host-port segment split at
/// the rightmost colon, where the port parses.
pub open spec fn segment_nodes(ms: Seq<Seq<char>>) -> Seq<(Seq<char>, u16)>
    decreases ms.len(),
{
    if ms.len() == 0 {
        Seq::empty()
    } else {
        let rest = segment_nodes(ms.drop_last());
        match host_port_of(ms.last()) {
            Some(hp) => rest.push(hp),
            None => rest,
        }
    }
}

/// What the single-URI scheme parser yields on a body for one of the
/// user-info schemes; any other scheme name yields nothing.
pub open spec fn protocol_nodes_spec(t: Seq<char>, protocol: Seq<char>) -> Seq<(Seq<char>, u16)> {
    if protocol == "vless"@ {
        segment_nodes(userinfo_matches(t, "vless://"@, 0))
    } else if protocol == "trojan"@ {
        segment_nodes(userinfo_matches(t, "trojan://"@, 0))
    } else if protocol == "ss"@ {
        segment_nodes(userinfo_matches(t, "ss://"@, 0))
    } else {
        Seq::empty()
    }
}

/// Extracts every `protocol://user@host:port` match and splits host from port
/// at the rightmost colon, so that hosts may themselves hold colons.
pub fn parse_protocol_url(text: &str, protocol: &str) -> (r: Vec<Node>)
    ensures
        r.deep_view() == protocol_nodes_spec(text@, protocol@),
{
    let pc = str_chars(protocol);
    let lit: Vec<char>;
    if chars_eq(pc.as_slice(), str_chars("vless").as_slice()) {
        lit = str_chars("vless://");
    } else if chars_eq(pc.as_slice(), str_chars("trojan").as_slice()) {
        lit = str_chars("trojan://");
    } else if chars_eq(pc.as_slice(), str_chars("ss").as_slice()) {
        lit = str_chars("ss://");
    } else {
        return Vec::new();
    }
    let cs = str_chars(text);
    let segments = scan_userinfo_hosts(cs.as_slice(), lit.as_slice());
    let ghost ms = userinfo_matches(text@, lit@, 0);
    let n: usize = segments.len();
    let mut r: Vec<Node> = Vec::new();
    let mut i: usize = 0;
    while i < n
        invariant
            n == segments@.len(),
            segments.deep_view() == ms,
            0 <= i <= n,
            r.deep_view() == segment_nodes(ms.take(i as int)),
        decreases n - i,
    {
        assert(segments@[i as int]@ == ms[i as int]);
        match split_host_port(segments[i].as_slice()) {
            Some(hp) => {
                r.push(Node::new(chars_to_string(hp.0.as_slice()), hp.1));
            },
            None => {},
        }
        proof {
            assert(ms.take(i + 1).drop_last() =~= ms.take(i as int));
            assert(ms.take(i + 1).last() == ms[i as int]);
            assert(r.deep_view() =~~= segment_nodes(ms.take(i + 1)));
        }
        i += 1;
    }
    assert(ms.take(n as int) =~= ms);
    assert(r.deep_view() == segment_nodes(ms));
    r
}

/// What one base64 payload of the multi-field scheme contributes: the decoded
/// text split at colons must give at least six fields; the first is the host
/// and the second must parse as the port.
pub open spec fn ssr_payload_nodes(ps: Seq<Seq<char>>) -> Seq<(Seq<char>, u16)>
    decreases ps.len(),
{
    if ps.len() == 0 {
        Seq::empty()
    } else {
        let rest = ssr_payload_nodes(ps.drop_last());
        match b64_utf8_of(ps.last()) {
            Some(d) => {
                let parts = split_colon(d);
                if parts.len() >= 6 {
                    match parse_u16_spec(parts[1]) {
                        Some(p) => rest.push((parts[0], p)),
                        None => rest,
                    }
                } else {
                    rest
                }
            },
            None => rest,
        }
    }
}

/// What the multi-field base64 scheme parser yields on a body.
pub open spec fn ssr_nodes_spec(t: Seq<char>) -> Seq<(Seq<char>, u16)> {
    ssr_payload_nodes(payload_matches(t, "ssr://"@, 0))
}

/// Extracts every `ssr://` payload, decodes it, and reads host and port out of
/// its colon-separated fields.
pub fn parse_ssr(text: &str) -> (r: Vec<Node>)
    ensures
        r.deep_view() == ssr_nodes_spec(text@),
{
    let cs = str_chars(text);
    let lit = str_chars("ssr://");
    let payloads = scan_payloads(cs.as_slice(), lit.as_slice());
    let ghost ps = payload_matches(text@, "ssr://"@, 0);
    let n: usize = payloads.len();
    let mut r: Vec<Node> = Vec::new();
    let mut i: usize = 0;
    while i < n
        invariant
            n == payloads@.len(),
            payloads.deep_view() == ps,
            0 <= i <= n,
            r.deep_view() == ssr_payload_nodes(ps.take(i as int)),
        decreases n - i,
    {
        let ptxt = chars_to_string(payloads[i].as_slice());
        assert(ptxt@ == ps[i as int]);
        match decode_b64_utf8(ptxt.as_str()) {
            Some(decoded) => {
                let dc = str_chars(decoded.as_str());
                let parts = split_on_colon(dc.as_slice());
                if parts.len() >= 6 {
                    assert(b64_utf8_of(ps[i as int]) == Some(decoded@));
                    assert(parts@[0]@ == split_colon(decoded@)[0]);
                    assert(parts@[1]@ == split_colon(decoded@)[1]);
                    match crate::digits::parse_port(parts[1].as_slice()) {
                        Some(p) => {
                            r.push(Node::new(chars_to_string(parts[0].as_slice()), p));
                        },
                        None => {},
                    }
                }
            },
            None => {},
        }
        proof {
            assert(ps.take(i + 1).drop_last() =~= ps.take(i as int));
            assert(ps.take(i + 1).last() == ps[i as int]);
            assert(r.deep_view() =~~= ssr_payload_nodes(ps.take(i + 1)));
        }
        i += 1;
    }
    assert(ps.take(n as int) =~= ps);
    r
}

/// What one inline object contributes: its `server` field, or failing that its
/// `address` field, as the host, with a port that fits.
pub open spec fn inline_object_nodes(ms: Seq<Seq<char>>) -> Seq<(Seq<char>, u16)>
    decreases ms.len(),
{
    if ms.len() == 0 {
        Seq::empty()
    } else {
        let rest = inline_object_nodes(ms.drop_last());
        let fields = inline_fields_of(ms.last());
        let host = if fields.0 is Some {
            fields.0
        } else {
            fields.1
        };
        match (host, fields.2) {
            (Some(h), Some(p)) => if p <= 65535 {
                rest.push((h, p as u16))
            } else {
                rest
            },
            _ => rest,
        }
    }
}

/// What the inline-object parser yields on a body: the first
/// `MAX_JSON_MATCHES` fragments of the shape `- {...}`, each read as JSON.
pub open spec fn inline_nodes_spec(t: Seq<char>) -> Seq<(Seq<char>, u16)> {
    inline_object_nodes(capped(inline_matches(t, 0), MAX_JSON_MATCHES as int))
}

/// Extracts every inline `- {...}` fragment and reads host and port out of it.
pub fn parse_inline_json(text: &str) -> (r: Vec<Node>)
    ensures
        r.deep_view() == inline_nodes_spec(text@),
{
    let cs = str_chars(text);
    let objects = scan_inline_objects(cs.as_slice());
    let n: usize = if objects.len() > MAX_JSON_MATCHES {
        MAX_JSON_MATCHES
    } else {
        objects.len()
    };
    let ghost ms = capped(inline_matches(text@, 0), MAX_JSON_MATCHES as int);
    proof {
        assert(ms =~= objects.deep_view().take(n as int));
    }
    let mut r: Vec<Node> = Vec::new();
    let mut i: usize = 0;
    while i < n
        invariant
            n <= objects@.len(),
            ms == objects.deep_view().take(n as int),
            ms.len() == n,
            0 <= i <= n,
            r.deep_view() == inline_object_nodes(ms.take(i as int)),
        decreases n - i,
    {
        let otxt = chars_to_string(objects[i].as_slice());
        assert(otxt@ == ms[i as int]);
        let fields = inline_json_fields(otxt.as_str());
        let host = if fields.0.is_some() {
            fields.0
        } else {
            fields.1
        };
        match (host, fields.2) {
            (Some(h), Some(p)) => {
                if p <= 65535 {
                    r.push(Node::new(h, p as u16));
                }
            },
            _ => {},
        }
        proof {
            assert(ms.take(i + 1).drop_last() =~= ms.take(i as int));
            assert(ms.take(i + 1).last() == ms[i as int]);
            assert(r.deep_view() =~~= inline_object_nodes(ms.take(i + 1)));
        }
        i += 1;
    }
    assert(ms.take(n as int) =~= ms);
    r
}

/// What one bare `host:port` match contributes: the host, where the two to
/// five digits parse as a port that fits.
pub open spec fn pair_nodes(ms: Seq<(Seq<char>, Seq<char>)>) -> Seq<(Seq<char>, u16)>
    decreases ms.len(),
{
    if ms.len() == 0 {
        Seq::empty()
    } else {
        let rest = pair_nodes(ms.drop_last());
        match parse_u16_spec(ms.last().1) {
            Some(p) => rest.push((ms.last().0, p)),
            None => rest,
        }
    }
}

/// What the last-resort parser yields on a body: the first
/// `MAX_HOSTPORT_MATCHES` bare `host:port` matches anywhere in the text.
pub open spec fn generic_nodes_spec(t: Seq<char>) -> Seq<(Seq<char>, u16)> {
    pair_nodes(capped(hostport_matches(t, 0), MAX_HOSTPORT_MATCHES as int))
}

/// Extracts every bare `host:port` occurrence, up to the cap.
pub fn parse_generic(text: &str) -> (r: Vec<Node>)
    ensures
        r.deep_view() == generic_nodes_spec(text@),
{
    let cs = str_chars(text);
    let pairs = scan_hostports(cs.as_slice());
    let n: usize = if pairs.len() > MAX_HOSTPORT_MATCHES {
        MAX_HOSTPORT_MATCHES
    } else {
        pairs.len()
    };
    let ghost ms = capped(hostport_matches(text@, 0), MAX_HOSTPORT_MATCHES as int);
    proof {
        assert(ms =~= pairs.deep_view().take(n as int));
    }
    let mut r: Vec<Node> = Vec::new();
    let mut i: usize = 0;
    while i < n
        invariant
            n <= pairs@.len(),
            ms == pairs.deep_view().take(n as int),
            ms.len() == n,
            0 <= i <= n,
            r.deep_view() == pair_nodes(ms.take(i as int)),
        decreases n - i,
    {
        let pair = &pairs[i];
        assert(pairs@[i as int].0@ == ms[i as int].0 && pairs@[i as int].1@ == ms[i as int].1);
        match crate::digits::parse_port(pair.1.as_slice()) {
            Some(p) => {
                r.push(Node::new(chars_to_string(pair.0.as_slice()), p));
            },
            None => {},
        }
        proof {
            assert(ms.take(i + 1).drop_last() =~= ms.take(i as int));
            assert(ms.take(i + 1).last() == ms[i as int]);
            assert(r.deep_view() =~~= pair_nodes(ms.take(i + 1)));
        }
        i += 1;
    }
    assert(ms.take(n as int) =~= ms);
    r
}

} // verus!
