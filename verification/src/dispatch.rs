//! The format dispatcher: sniffs which encodings a body may hold and tries
//! their parsers in a fixed priority order, most distinctive first, returning
//! at the first parser that yields at least one node.

use vstd::prelude::*;
use crate::config::OVERSIZE_BODY;
use crate::limit::{limit_text, limit_chars};
use crate::models::Node;
use crate::parsers::{
    clash_nodes_spec, v2ray_nodes_spec, vmess_nodes_spec, protocol_nodes_spec, ssr_nodes_spec,
    inline_nodes_spec, generic_nodes_spec, parse_clash_yaml, parse_v2ray_json, parse_vmess,
    parse_protocol_url, parse_ssr, parse_inline_json, parse_generic,
};
use crate::scan::{CharClass, run_end, find_run_end, class_check};
use crate::text::{
    is_space, lower_seq, contains_seq, contains_sub, lower_chars, str_chars, chars_to_string,
};

verus! {

/// The body is empty or all whitespace: nothing to parse.
pub open spec fn all_space(t: Seq<char>) -> bool {
    forall|i: int| 0 <= i < t.len() ==> is_space(t[i])
}

/// The first character after leading whitespace is an opening brace.
pub open spec fn starts_with_brace(t: Seq<char>) -> bool {
    let k = run_end(t, 0, CharClass::Space);
    k < t.len() && t[k] == '{'
}

/// The structured-config parser is tried when the lowercased body names a
/// proxies or proxy-groups section.
pub open spec fn clash_trigger(t: Seq<char>) -> bool {
    contains_seq(lower_seq(t), "proxies:"@) || contains_seq(lower_seq(t), "proxy-groups:"@)
}

/// The router-config parser is tried when the body opens with a brace and the
/// lowercased body names outbounds or inbounds.
pub open spec fn v2ray_trigger(t: Seq<char>) -> bool {
    starts_with_brace(t) && (contains_seq(lower_seq(t), "outbounds"@) || contains_seq(
        lower_seq(t),
        "inbounds"@,
    ))
}

/// The inline-object parser is tried when the body holds a brace and the
/// lowercased body names a server or address field.
pub open spec fn inline_trigger(t: Seq<char>) -> bool {
    contains_seq(t, "{"@) && (contains_seq(lower_seq(t), "server"@) || contains_seq(
        lower_seq(t),
        "address"@,
    ))
}

/// Whether parser `k` of the chain is triggered on the bound body; the last
/// resort, at position eight, has no trigger condition.
pub open spec fn chain_trigger(t: Seq<char>, k: int) -> bool {
    if k == 0 {
        clash_trigger(t)
    } else if k == 1 {
        v2ray_trigger(t)
    } else if k == 2 {
        contains_seq(t, "vmess://"@)
    } else if k == 3 {
        contains_seq(t, "vless://"@)
    } else if k == 4 {
        contains_seq(t, "trojan://"@)
    } else if k == 5 {
        contains_seq(t, "ss://"@)
    } else if k == 6 {
        contains_seq(t, "ssr://"@)
    } else if k == 7 {
        inline_trigger(t)
    } else {
        true
    }
}

/// What parser `k` of the chain yields on the bound body.
pub open spec fn chain_yield(t: Seq<char>, k: int) -> Seq<(Seq<char>, u16)> {
    if k == 0 {
        clash_nodes_spec(t)
    } else if k == 1 {
        v2ray_nodes_spec(t)
    } else if k == 2 {
        vmess_nodes_spec(t)
    } else if k == 3 {
        protocol_nodes_spec(t, "vless"@)
    } else if k == 4 {
        protocol_nodes_spec(t, "trojan"@)
    } else if k == 5 {
        protocol_nodes_spec(t, "ss"@)
    } else if k == 6 {
        ssr_nodes_spec(t)
    } else if k == 7 {
        inline_nodes_spec(t)
    } else {
        generic_nodes_spec(t)
    }
}

/// The chain from parser `k` on: the first triggered parser with a non-empty
/// yield wins, and the last resort closes the chain.
pub open spec fn chain_from(t: Seq<char>, k: int) -> Seq<(Seq<char>, u16)>
    decreases 8 - k when k <= 8
{
    if k >= 8 {
        chain_yield(t, 8)
    } else if chain_trigger(t, k) && chain_yield(t, k).len() > 0 {
        chain_yield(t, k)
    } else {
        chain_from(t, k + 1)
    }
}

/// The parser chain on a bound body, in priority order: each parser is
/// consulted only where its trigger holds, and the first non-empty yield wins;
/// the bare `host:port` parser is the unguarded last resort.
pub open spec fn dispatch_chain(t: Seq<char>) -> Seq<(Seq<char>, u16)> {
    chain_from(t, 0)
}

/// Where every parser between `j` and `k` is untriggered or yields nothing,
/// the chain passes over them.
proof fn lemma_chain_skips_to(t: Seq<char>, j: int, k: int)
    requires
        0 <= j <= k <= 8,
        forall|m: int| j <= m < k ==> !(chain_trigger(t, m) && chain_yield(t, m).len() > 0),
    ensures
        chain_from(t, j) == chain_from(t, k),
    decreases k - j,
{
    if j < k {
        lemma_chain_skips_to(t, j + 1, k);
    }
}

/// The general priority and fall-through law: where every parser ahead of `k`
/// is untriggered or decodes to zero valid nodes, and parser `k` is triggered
/// with at least one node, the dispatcher's result is exactly parser `k`'s
/// yield. A parser that matches but yields nothing thus never ends the chain,
/// and no parser behind the winner contributes.
pub proof fn lemma_first_nonempty_yield_wins(t: Seq<char>, k: int)
    requires
        0 <= k <= 8,
        forall|j: int| 0 <= j < k ==> !(chain_trigger(t, j) && chain_yield(t, j).len() > 0),
        chain_trigger(t, k),
        chain_yield(t, k).len() > 0,
    ensures
        dispatch_chain(t) == chain_yield(t, k),
{
    lemma_chain_skips_to(t, 0, k);
}

/// The dispatcher on a raw body: a whitespace-only body yields nothing and no
/// parser is consulted; any other body is bound in size and lines first, and
/// the parser chain runs on the bound text.
pub open spec fn detect_spec(raw: Seq<char>) -> Seq<(Seq<char>, u16)> {
    if all_space(raw) {
        Seq::empty()
    } else {
        dispatch_chain(limit_text(raw))
    }
}

/// Whether every character is whitespace.
fn check_all_space(v: &[char]) -> (r: bool)
    ensures
        r == all_space(v@),
{
    let l: usize = v.len();
    let mut i: usize = 0;
    while i < l
        invariant
            l == v@.len(),
            0 <= i <= l,
            forall|k: int| 0 <= k < i ==> is_space(v@[k]),
        decreases l - i,
    {
        if !class_check(CharClass::Space, v[i]) {
            return false;
        }
        i += 1;
    }
    true
}

/// Detects which encoding the body holds and extracts its nodes: the parsers
/// run in a fixed priority order on the bound text and the first non-empty
/// yield is returned; every returned port fits sixteen bits.
pub fn detect_format_and_parse(text: &str) -> (r: Vec<Node>)
    ensures
        r.deep_view() == detect_spec(text@),
        forall|i: int| 0 <= i < r.deep_view().len() ==> r.deep_view()[i].1 <= 65535,
{
    let cs = str_chars(text);
    if check_all_space(cs.as_slice()) {
        return Vec::new();
    }
    let limited_cs = limit_chars(cs);
    let ghost t = limit_text(text@);
    let limited = chars_to_string(limited_cs.as_slice());
    let low = lower_chars(limited_cs.as_slice());

    if contains_sub(low.as_slice(), str_chars("proxies:").as_slice()) || contains_sub(
        low.as_slice(),
        str_chars("proxy-groups:").as_slice(),
    ) {
        let nodes = parse_clash_yaml(limited.as_str());
        if nodes.len() > 0 {
            proof {
                lemma_first_nonempty_yield_wins(t, 0);
            }
            return nodes;
        }
    }
    assert(!(chain_trigger(t, 0) && chain_yield(t, 0).len() > 0));
    let brace_pos = find_run_end(limited_cs.as_slice(), 0, CharClass::Space);
    if brace_pos < limited_cs.len() && limited_cs[brace_pos] == '{' && (contains_sub(
        low.as_slice(),
        str_chars("outbounds").as_slice(),
    ) || contains_sub(low.as_slice(), str_chars("inbounds").as_slice())) {
        let nodes = parse_v2ray_json(limited.as_str());
        if nodes.len() > 0 {
            proof {
                lemma_first_nonempty_yield_wins(t, 1);
            }
            return nodes;
        }
    }
    assert(!(chain_trigger(t, 1) && chain_yield(t, 1).len() > 0));
    if contains_sub(limited_cs.as_slice(), str_chars("vmess://").as_slice()) {
        let nodes = parse_vmess(limited.as_str());
        if nodes.len() > 0 {
            proof {
                lemma_first_nonempty_yield_wins(t, 2);
            }
            return nodes;
        }
    }
    assert(!(chain_trigger(t, 2) && chain_yield(t, 2).len() > 0));
    if contains_sub(limited_cs.as_slice(), str_chars("vless://").as_slice()) {
        let nodes = parse_protocol_url(limited.as_str(), "vless");
        if nodes.len() > 0 {
            proof {
                lemma_first_nonempty_yield_wins(t, 3);
            }
            return nodes;
        }
    }
    assert(!(chain_trigger(t, 3) && chain_yield(t, 3).len() > 0));
    if contains_sub(limited_cs.as_slice(), str_chars("trojan://").as_slice()) {
        let nodes = parse_protocol_url(limited.as_str(), "trojan");
        if nodes.len() > 0 {
            proof {
                lemma_first_nonempty_yield_wins(t, 4);
            }
            return nodes;
        }
    }
    assert(!(chain_trigger(t, 4) && chain_yield(t, 4).len() > 0));
    if contains_sub(limited_cs.as_slice(), str_chars("ss://").as_slice()) {
        let nodes = parse_protocol_url(limited.as_str(), "ss");
        if nodes.len() > 0 {
            proof {
                lemma_first_nonempty_yield_wins(t, 5);
            }
            return nodes;
        }
    }
    assert(!(chain_trigger(t, 5) && chain_yield(t, 5).len() > 0));
    if contains_sub(limited_cs.as_slice(), str_chars("ssr://").as_slice()) {
        let nodes = parse_ssr(limited.as_str());
        if nodes.len() > 0 {
            proof {
                lemma_first_nonempty_yield_wins(t, 6);
            }
            return nodes;
        }
    }
    assert(!(chain_trigger(t, 6) && chain_yield(t, 6).len() > 0));
    if contains_sub(limited_cs.as_slice(), str_chars("{").as_slice()) && (contains_sub(
        low.as_slice(),
        str_chars("server").as_slice(),
    ) || contains_sub(low.as_slice(), str_chars("address").as_slice())) {
        let nodes = parse_inline_json(limited.as_str());
        if nodes.len() > 0 {
            proof {
                lemma_first_nonempty_yield_wins(t, 7);
            }
            return nodes;
        }
    }
    assert(!(chain_trigger(t, 7) && chain_yield(t, 7).len() > 0));
    proof {
        lemma_chain_skips_to(t, 0, 8);
    }
    parse_generic(limited.as_str())
}

/// An empty body, or one above the oversize bound, is skipped outright; any
/// other body goes through the dispatcher.
pub open spec fn subscription_nodes_spec(b: Seq<char>) -> Seq<(Seq<char>, u16)> {
    if b.len() == 0 {
        Seq::empty()
    } else if vstd::utf8::encode_utf8(b).len() as usize > OVERSIZE_BODY {
        Seq::empty()
    } else {
        detect_spec(b)
    }
}

/// Parses one fetched body: nothing on an empty or oversize body, the
/// dispatcher's yield otherwise.
pub fn parse_subscription_safe(body: &str) -> (r: Vec<Node>)
    ensures
        r.deep_view() == subscription_nodes_spec(body@),
{
    if body.is_empty() {
        return Vec::new();
    }
    if body.len() > OVERSIZE_BODY {
        return Vec::new();
    }
    detect_format_and_parse(body)
}

/// Priority order is respected: where the structured-config trigger fires and
/// that parser yields nodes, its yield is the dispatcher's whole result, and
/// no later parser contributes.
pub proof fn lemma_priority_structured_config(t: Seq<char>)
    requires
        clash_trigger(t),
        clash_nodes_spec(t).len() > 0,
    ensures
        dispatch_chain(t) == clash_nodes_spec(t),
{
    lemma_first_nonempty_yield_wins(t, 0);
}

/// A parser that matches but decodes no valid node falls through: where the
/// two structured parsers yield nothing and the first URI scheme matches with
/// at least one node, its yield is the result, whatever the earlier triggers.
pub proof fn lemma_fallthrough_to_uri_scheme(t: Seq<char>)
    requires
        clash_nodes_spec(t).len() == 0,
        v2ray_nodes_spec(t).len() == 0,
        contains_seq(t, "vmess://"@),
        vmess_nodes_spec(t).len() > 0,
    ensures
        dispatch_chain(t) == vmess_nodes_spec(t),
{
    lemma_first_nonempty_yield_wins(t, 2);
}

} // verus!
