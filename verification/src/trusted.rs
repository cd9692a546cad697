//! Wrappers around functions of outside crates and of std that vstd gives no
//! specification. Each carries the contract its callers rely on; the bodies
//! only make the call and convert values. What a call returns is a function of
//! its text alone, so each result is given a name that the callers' own
//! contracts are stated over.

use base64::Engine;
use vstd::prelude::*;

verus! {

/// What serde_yaml reads out of a structured config: one element per entry of
/// the document's `proxies` sequence, carrying the entry's `server` and `port`
/// fields where they are a string and an integer.
pub uninterp spec fn yaml_proxies_of(text: Seq<char>) -> Seq<(Option<Seq<char>>, Option<u64>)>;

/// Relies on serde_yaml::from_str and serde_yaml::Value's `get`,
/// `as_sequence`, `as_str` and `as_u64`: hands out the `server` and `port`
/// fields of every entry of the document's `proxies` sequence. A document that
/// does not parse, or has no `proxies` sequence, gives no entries.
#[verifier::external_body]
pub(crate) fn yaml_proxy_entries(text: &str) -> (r: Vec<(Option<String>, Option<u64>)>)
    ensures
        r.deep_view() == yaml_proxies_of(text@),
{
    let mut out = Vec::new();
    if let Ok(v) = serde_yaml::from_str::<serde_yaml::Value>(text) {
        if let Some(entries) = v.get("proxies").and_then(|p| p.as_sequence()) {
            for entry in entries {
                out.push((
                    entry.get("server").and_then(|s| s.as_str()).map(|s| s.to_string()),
                    entry.get("port").and_then(|p| p.as_u64()),
                ));
            }
        }
    }
    out
}

/// What serde_json reads out of a router config: one element per entry of
/// `outbounds[].settings.vnext[]`, carrying the entry's `address` and `port`
/// fields where they are a string and an integer.
pub uninterp spec fn v2ray_vnext_of(text: Seq<char>) -> Seq<(Option<Seq<char>>, Option<u64>)>;

/// Relies on serde_json::from_str and serde_json::Value's `get`, `as_array`,
/// `as_str` and `as_u64`: hands out the `address` and `port` fields of every
/// entry under `outbounds[].settings.vnext[]`. A text that does not parse as
/// JSON, or lacks that structure, gives no entries.
#[verifier::external_body]
pub(crate) fn v2ray_vnext_entries(text: &str) -> (r: Vec<(Option<String>, Option<u64>)>)
    ensures
        r.deep_view() == v2ray_vnext_of(text@),
{
    let mut out = Vec::new();
    if let Ok(v) = serde_json::from_str::<serde_json::Value>(text) {
        let outbounds = v.get("outbounds").and_then(|o| o.as_array());
        for ob in outbounds.into_iter().flatten() {
            let vnext = ob.get("settings").and_then(|s| s.get("vnext")).and_then(|x| x.as_array());
            for entry in vnext.into_iter().flatten() {
                out.push((
                    entry.get("address").and_then(|a| a.as_str()).map(|s| s.to_string()),
                    entry.get("port").and_then(|p| p.as_u64()),
                ));
            }
        }
    }
    out
}

/// What decoding a base64 payload and reading the bytes as UTF-8 yields:
/// `None` where the payload is not valid base64 of the standard padded
/// alphabet or the bytes are not valid UTF-8.
pub uninterp spec fn b64_utf8_of(payload: Seq<char>) -> Option<Seq<char>>;

/// Relies on base64's `Engine::decode` with the standard padded alphabet, and
/// on `String::from_utf8`: the decoded payload as text.
#[verifier::external_body]
pub(crate) fn decode_b64_utf8(payload: &str) -> (r: Option<String>)
    ensures
        r.deep_view() == b64_utf8_of(payload@),
{
    base64::engine::general_purpose::STANDARD.decode(payload).ok().and_then(
        |b| String::from_utf8(b).ok(),
    )
}

/// What serde_json reads out of one decoded URI payload: the object's `add`
/// and `port` fields where they are a string and an integer.
pub uninterp spec fn vmess_fields_of(text: Seq<char>) -> (Option<Seq<char>>, Option<u64>);

/// Relies on serde_json::from_str and serde_json::Value's `get`, `as_str` and
/// `as_u64`: the `add` and `port` fields of the text read as a JSON object.
#[verifier::external_body]
pub(crate) fn vmess_json_fields(text: &str) -> (r: (Option<String>, Option<u64>))
    ensures
        r.deep_view() == vmess_fields_of(text@),
{
    match serde_json::from_str::<serde_json::Value>(text) {
        Ok(v) => (
            v.get("add").and_then(|a| a.as_str()).map(|s| s.to_string()),
            v.get("port").and_then(|p| p.as_u64()),
        ),
        Err(_) => (None, None),
    }
}

/// What serde_json reads out of one inline object: its `server`, `address`
/// and `port` fields where they are strings and an integer.
pub uninterp spec fn inline_fields_of(text: Seq<char>) -> (
    Option<Seq<char>>,
    Option<Seq<char>>,
    Option<u64>,
);

/// Relies on serde_json::from_str and serde_json::Value's `get`, `as_str` and
/// `as_u64`: the `server`, `address` and `port` fields of the text read as a
/// JSON object.
#[verifier::external_body]
pub(crate) fn inline_json_fields(text: &str) -> (r: (Option<String>, Option<String>, Option<u64>))
    ensures
        r.deep_view() == inline_fields_of(text@),
{
    match serde_json::from_str::<serde_json::Value>(text) {
        Ok(v) => (
            v.get("server").and_then(|s| s.as_str()).map(|s| s.to_string()),
            v.get("address").and_then(|a| a.as_str()).map(|s| s.to_string()),
            v.get("port").and_then(|p| p.as_u64()),
        ),
        Err(_) => (None, None, None),
    }
}

/// Relies on String::push: appends exactly the one character.
#[verifier::external_body]
pub(crate) fn push_char(s: &mut String, c: char)
    ensures
        final(s)@ == old(s)@.push(c),
{
    s.push(c);
}

} // verus!
