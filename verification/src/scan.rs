//! Scanners for the text patterns the parsers are built on: each one walks the
//! text left to right and collects non-overlapping matches, the leftmost first.

use vstd::prelude::*;
use crate::text::{is_space, is_digit, is_at, check_at, str_chars, chars_to_string};

verus! {

/// The character classes the scanners take runs of.
#[derive(Clone, Copy, PartialEq, Eq, Structural, Debug)]
pub enum CharClass {
    /// Anything a URL may run through: not whitespace, not `)`.
    UrlChar,
    /// Letters, digits, `.` and `-`: a bare host name.
    HostChar,
    /// Decimal digits.
    Digit,
    /// The base64 alphabet with padding.
    B64Char,
    /// Anything but `@`: the user-info part of a URI.
    NotAt,
    /// Anything but `/`, `?` and `#`: the host-port part of a URI.
    HostPortChar,
    /// Anything but `}`: the inside of an inline object.
    NotRBrace,
    /// White space.
    Space,
    /// Anything but `:`: a field between colons.
    NotColon,
    /// Anything but a line feed: the body of a line.
    NotNewline,
}

pub open spec fn is_letter(c: char) -> bool {
    ('a' <= c && c <= 'z') || ('A' <= c && c <= 'Z')
}

pub open spec fn in_class(k: CharClass, c: char) -> bool {
    match k {
        CharClass::UrlChar => !is_space(c) && c != ')',
        CharClass::HostChar => is_digit(c) || is_letter(c) || c == '.' || c == '-',
        CharClass::Digit => is_digit(c),
        CharClass::B64Char => is_digit(c) || is_letter(c) || c == '+' || c == '/' || c == '=',
        CharClass::NotAt => c != '@',
        CharClass::HostPortChar => c != '/' && c != '?' && c != '#',
        CharClass::NotRBrace => c != '}',
        CharClass::Space => is_space(c),
        CharClass::NotColon => c != ':',
        CharClass::NotNewline => c != '\n',
    }
}

pub fn class_check(k: CharClass, c: char) -> (r: bool)
    ensures
        r == in_class(k, c),
{
    match k {
        CharClass::UrlChar => !crate::text::space_check(c) && c != ')',
        CharClass::HostChar => ('0' <= c && c <= '9') || ('a' <= c && c <= 'z') || ('A' <= c && c
            <= 'Z') || c == '.' || c == '-',
        CharClass::Digit => '0' <= c && c <= '9',
        CharClass::B64Char => ('0' <= c && c <= '9') || ('a' <= c && c <= 'z') || ('A' <= c && c
            <= 'Z') || c == '+' || c == '/' || c == '=',
        CharClass::NotAt => c != '@',
        CharClass::HostPortChar => c != '/' && c != '?' && c != '#',
        CharClass::NotRBrace => c != '}',
        CharClass::Space => crate::text::space_check(c),
        CharClass::NotColon => c != ':',
        CharClass::NotNewline => c != '\n',
    }
}

/// Position right after the maximal run of class `k` characters starting at `i`.
pub open spec fn run_end(s: Seq<char>, i: int, k: CharClass) -> int
    decreases s.len() - i when 0 <= i <= s.len()
{
    if i >= s.len() {
        i
    } else if in_class(k, s[i]) {
        run_end(s, i + 1, k)
    } else {
        i
    }
}

pub proof fn lemma_run_end(s: Seq<char>, i: int, k: CharClass)
    requires
        0 <= i <= s.len(),
    ensures
        i <= run_end(s, i, k) <= s.len(),
        forall|j: int| i <= j < run_end(s, i, k) ==> in_class(k, s[j]),
        run_end(s, i, k) < s.len() ==> !in_class(k, s[run_end(s, i, k)]),
    decreases s.len() - i,
{
    if i < s.len() && in_class(k, s[i]) {
        lemma_run_end(s, i + 1, k);
    }
}

pub fn find_run_end(v: &[char], i: usize, k: CharClass) -> (r: usize)
    requires
        i <= v@.len(),
    ensures
        r == run_end(v@, i as int, k),
        i <= r <= v@.len(),
{
    let l: usize = v.len();
    let mut j: usize = i;
    while j < l
        invariant
            l == v@.len(),
            i <= j <= l,
            run_end(v@, i as int, k) == run_end(v@, j as int, k),
        decreases l - j,
    {
        if !class_check(k, v[j]) {
            return j;
        }
        j += 1;
    }
    j
}

/// Length of the URL scheme at position `i`: 8 for `https://`, 7 for
/// `http://`, 0 where neither stands there.
pub open spec fn scheme_len_at(s: Seq<char>, i: int) -> int {
    if is_at(s, "https://"@, i) {
        8
    } else if is_at(s, "http://"@, i) {
        7
    } else {
        0
    }
}

/// The URL matches of the text from position `i` on: at each occurrence of a
/// scheme followed by at least one URL character, the scheme and the maximal
/// run after it, the search continuing after the match.
pub open spec fn url_matches(s: Seq<char>, i: int) -> Seq<Seq<char>>
    decreases s.len() - i when 0 <= i via url_matches_decreases
{
    if i >= s.len() {
        Seq::empty()
    } else {
        let sl = scheme_len_at(s, i);
        if sl > 0 && i + sl < s.len() && in_class(CharClass::UrlChar, s[i + sl]) {
            let e = run_end(s, i + sl, CharClass::UrlChar);
            seq![s.subrange(i, e)] + url_matches(s, e)
        } else {
            url_matches(s, i + 1)
        }
    }
}

#[via_fn]
proof fn url_matches_decreases(s: Seq<char>, i: int) {
    if i < s.len() {
        let sl = scheme_len_at(s, i);
        if sl > 0 && i + sl < s.len() && in_class(CharClass::UrlChar, s[i + sl]) {
            lemma_run_end(s, i + sl, CharClass::UrlChar);
            assert(run_end(s, i + sl, CharClass::UrlChar) > i + sl);
        }
    }
}

/// All URL matches of the whole text, in order.
pub fn scan_urls(v: &[char]) -> (r: Vec<String>)
    ensures
        r.deep_view() == url_matches(v@, 0),
{
    proof {
        reveal_strlit("https://");
        reveal_strlit("http://");
    }
    let https_lit = str_chars("https://");
    let http_lit = str_chars("http://");
    let l: usize = v.len();
    let mut r: Vec<String> = Vec::new();
    let mut i: usize = 0;
    while i < l
        invariant
            l == v@.len(),
            https_lit@ == "https://"@,
            http_lit@ == "http://"@,
            https_lit@.len() == 8,
            http_lit@.len() == 7,
            0 <= i <= l,
            r.deep_view() + url_matches(v@, i as int) == url_matches(v@, 0),
        decreases l - i,
    {
        let ghost prev = r.deep_view();
        let mut sl: usize = 0;
        if l - i >= 8 && check_at(v, https_lit.as_slice(), i) {
            sl = 8;
        } else if l - i >= 7 && check_at(v, http_lit.as_slice(), i) {
            sl = 7;
        }
        proof {
            if sl == 0 {
                assert(!is_at(v@, "https://"@, i as int));
                assert(!is_at(v@, "http://"@, i as int));
            }
            assert(sl as int == scheme_len_at(v@, i as int));
        }
        if sl > 0 && i + sl < l && class_check(CharClass::UrlChar, v[i + sl]) {
            let e = find_run_end(v, i + sl, CharClass::UrlChar);
            let m = sub_chars(v, i, e);
            r.push(chars_to_string(m.as_slice()));
            proof {
                lemma_run_end(v@, i + sl, CharClass::UrlChar);
                assert(r.deep_view() =~~= prev.push(v@.subrange(i as int, e as int)));
                assert(r.deep_view() + url_matches(v@, e as int) =~= url_matches(v@, 0));
            }
            i = e;
        } else {
            i += 1;
        }
    }
    assert(url_matches(v@, l as int) =~= Seq::<Seq<char>>::empty());
    assert(r.deep_view() =~= url_matches(v@, 0));
    r
}

/// The bare `host:port` matches of the text from position `i` on: a maximal
/// run of host characters, a colon, then two to five digits (at most five
/// taken, greedily); the search continues after the digits.
pub open spec fn hostport_matches(s: Seq<char>, i: int) -> Seq<(Seq<char>, Seq<char>)>
    decreases s.len() - i when 0 <= i via hostport_matches_decreases
{
    if i >= s.len() {
        Seq::empty()
    } else if in_class(CharClass::HostChar, s[i]) {
        let he = run_end(s, i, CharClass::HostChar);
        if he < s.len() && s[he] == ':' {
            let de0 = run_end(s, he + 1, CharClass::Digit);
            let de = if de0 > he + 6 {
                he + 6
            } else {
                de0
            };
            if de >= he + 3 {
                seq![(s.subrange(i, he), s.subrange(he + 1, de))] + hostport_matches(s, de)
            } else {
                hostport_matches(s, i + 1)
            }
        } else {
            hostport_matches(s, i + 1)
        }
    } else {
        hostport_matches(s, i + 1)
    }
}

#[via_fn]
proof fn hostport_matches_decreases(s: Seq<char>, i: int) {
    if i < s.len() && in_class(CharClass::HostChar, s[i]) {
        lemma_run_end(s, i, CharClass::HostChar);
        let he = run_end(s, i, CharClass::HostChar);
        if he < s.len() && s[he] == ':' {
            lemma_run_end(s, he + 1, CharClass::Digit);
        }
    }
}

/// All `host:port` matches of the whole text, in order, each as the host part
/// and the digit part.
pub fn scan_hostports(v: &[char]) -> (r: Vec<(Vec<char>, Vec<char>)>)
    ensures
        r.deep_view() == hostport_matches(v@, 0),
{
    let l: usize = v.len();
    let mut r: Vec<(Vec<char>, Vec<char>)> = Vec::new();
    let mut i: usize = 0;
    while i < l
        invariant
            l == v@.len(),
            0 <= i <= l,
            r.deep_view() + hostport_matches(v@, i as int) == hostport_matches(v@, 0),
        decreases l - i,
    {
        let ghost prev = r.deep_view();
        if class_check(CharClass::HostChar, v[i]) {
            let he = find_run_end(v, i, CharClass::HostChar);
            if he < l && v[he] == ':' {
                let de0 = find_run_end(v, he + 1, CharClass::Digit);
                let de = if de0 - he > 6 {
                    he + 6
                } else {
                    de0
                };
                if de - he >= 3 {
                    let host = sub_chars(v, i, he);
                    let digits = sub_chars(v, he + 1, de);
                    r.push((host, digits));
                    proof {
                        lemma_run_end(v@, i as int, CharClass::HostChar);
                        assert(r.deep_view() =~~= prev.push(
                            (v@.subrange(i as int, he as int), v@.subrange(he + 1, de as int)),
                        ));
                        assert(r.deep_view() + hostport_matches(v@, de as int)
                            =~~= hostport_matches(v@, 0));
                    }
                    i = de;
                } else {
                    i += 1;
                }
            } else {
                i += 1;
            }
        } else {
            i += 1;
        }
    }
    assert(hostport_matches(v@, l as int) =~= Seq::<(Seq<char>, Seq<char>)>::empty());
    assert(r.deep_view() =~= hostport_matches(v@, 0));
    r
}

/// The base64 payloads after each occurrence of the literal `lit` (a URI
/// scheme such as `vmess://`): the maximal non-empty run of base64 characters
/// right after the literal; the search continues after the run.
pub open spec fn payload_matches(s: Seq<char>, lit: Seq<char>, i: int) -> Seq<Seq<char>>
    decreases s.len() - i when 0 <= i via payload_matches_decreases
{
    if i >= s.len() {
        Seq::empty()
    } else if is_at(s, lit, i) && i + lit.len() < s.len() && in_class(
        CharClass::B64Char,
        s[i + lit.len()],
    ) {
        let e = run_end(s, i + lit.len(), CharClass::B64Char);
        seq![s.subrange(i + lit.len(), e)] + payload_matches(s, lit, e)
    } else {
        payload_matches(s, lit, i + 1)
    }
}

#[via_fn]
proof fn payload_matches_decreases(s: Seq<char>, lit: Seq<char>, i: int) {
    if i < s.len() && is_at(s, lit, i) && i + lit.len() < s.len() && in_class(
        CharClass::B64Char,
        s[i + lit.len()],
    ) {
        lemma_run_end(s, i + lit.len(), CharClass::B64Char);
    }
}

/// All base64 payloads after occurrences of `lit` in the whole text.
pub fn scan_payloads(v: &[char], lit: &[char]) -> (r: Vec<Vec<char>>)
    ensures
        r.deep_view() == payload_matches(v@, lit@, 0),
{
    let l: usize = v.len();
    let ll: usize = lit.len();
    let mut r: Vec<Vec<char>> = Vec::new();
    let mut i: usize = 0;
    while i < l
        invariant
            l == v@.len(),
            ll == lit@.len(),
            0 <= i <= l,
            r.deep_view() + payload_matches(v@, lit@, i as int) == payload_matches(v@, lit@, 0),
        decreases l - i,
    {
        let ghost prev = r.deep_view();
        if l - i > ll && check_at(v, lit, i) && class_check(CharClass::B64Char, v[i + ll]) {
            let e = find_run_end(v, i + ll, CharClass::B64Char);
            let m = sub_chars(v, i + ll, e);
            r.push(m);
            proof {
                lemma_run_end(v@, i + ll, CharClass::B64Char);
                assert(r.deep_view() =~~= prev.push(v@.subrange(i + ll, e as int)));
                assert(r.deep_view() + payload_matches(v@, lit@, e as int) =~~= payload_matches(
                    v@,
                    lit@,
                    0,
                ));
            }
            i = e;
        } else {
            proof {
                if !(l - i > ll) {
                    assert(!(is_at(v@, lit@, i as int) && i + lit@.len() < v@.len()));
                }
            }
            i += 1;
        }
    }
    assert(payload_matches(v@, lit@, l as int) =~= Seq::<Seq<char>>::empty());
    assert(r.deep_view() =~= payload_matches(v@, lit@, 0));
    r
}

/// The host-port segments after each occurrence of the literal `lit` (a URI
/// scheme such as `vless://`): everything up to the first `@` is user
/// information, and the maximal non-empty run of host-port characters after
/// the `@` is the match; the search continues after it.
pub open spec fn userinfo_matches(s: Seq<char>, lit: Seq<char>, i: int) -> Seq<Seq<char>>
    decreases s.len() - i when 0 <= i via userinfo_matches_decreases
{
    if i >= s.len() {
        Seq::empty()
    } else if is_at(s, lit, i) {
        let j = i + lit.len();
        let a = run_end(s, j, CharClass::NotAt);
        if a > j && a + 1 < s.len() && in_class(CharClass::HostPortChar, s[a + 1]) {
            let e = run_end(s, a + 1, CharClass::HostPortChar);
            seq![s.subrange(a + 1, e)] + userinfo_matches(s, lit, e)
        } else {
            userinfo_matches(s, lit, i + 1)
        }
    } else {
        userinfo_matches(s, lit, i + 1)
    }
}

#[via_fn]
proof fn userinfo_matches_decreases(s: Seq<char>, lit: Seq<char>, i: int) {
    if i < s.len() && is_at(s, lit, i) {
        let j = i + lit.len();
        lemma_run_end(s, j, CharClass::NotAt);
        let a = run_end(s, j, CharClass::NotAt);
        if a > j && a + 1 < s.len() && in_class(CharClass::HostPortChar, s[a + 1]) {
            lemma_run_end(s, a + 1, CharClass::HostPortChar);
        }
    }
}

/// All host-port segments after occurrences of `lit` in the whole text.
pub fn scan_userinfo_hosts(v: &[char], lit: &[char]) -> (r: Vec<Vec<char>>)
    ensures
        r.deep_view() == userinfo_matches(v@, lit@, 0),
{
    let l: usize = v.len();
    let ll: usize = lit.len();
    let mut r: Vec<Vec<char>> = Vec::new();
    let mut i: usize = 0;
    while i < l
        invariant
            l == v@.len(),
            ll == lit@.len(),
            0 <= i <= l,
            r.deep_view() + userinfo_matches(v@, lit@, i as int) == userinfo_matches(v@, lit@, 0),
        decreases l - i,
    {
        let ghost prev = r.deep_view();
        let mut advanced = false;
        if l - i >= ll && check_at(v, lit, i) {
            let j = i + ll;
            let a = find_run_end(v, j, CharClass::NotAt);
            if a > j && a < l && a + 1 < l && class_check(CharClass::HostPortChar, v[a + 1]) {
                let e = find_run_end(v, a + 1, CharClass::HostPortChar);
                let m = sub_chars(v, a + 1, e);
                r.push(m);
                proof {
                    lemma_run_end(v@, j as int, CharClass::NotAt);
                    lemma_run_end(v@, a + 1, CharClass::HostPortChar);
                    assert(r.deep_view() =~~= prev.push(v@.subrange(a + 1, e as int)));
                    assert(r.deep_view() + userinfo_matches(v@, lit@, e as int)
                        =~~= userinfo_matches(v@, lit@, 0));
                }
                i = e;
                advanced = true;
            }
        } else {
            proof {
                if !(l - i >= ll) {
                    assert(!is_at(v@, lit@, i as int));
                }
            }
        }
        if !advanced {
            i += 1;
        }
    }
    assert(userinfo_matches(v@, lit@, l as int) =~= Seq::<Seq<char>>::empty());
    assert(r.deep_view() =~= userinfo_matches(v@, lit@, 0));
    r
}

/// The inline-object matches of the text from position `i` on: a `-`, optional
/// whitespace, then a brace-delimited fragment with no `}` inside; the match is
/// the fragment braces included, and the search continues after it.
pub open spec fn inline_matches(s: Seq<char>, i: int) -> Seq<Seq<char>>
    decreases s.len() - i when 0 <= i via inline_matches_decreases
{
    if i >= s.len() {
        Seq::empty()
    } else if s[i] == '-' {
        let w = run_end(s, i + 1, CharClass::Space);
        if w < s.len() && s[w] == '{' {
            let e = run_end(s, w + 1, CharClass::NotRBrace);
            if e < s.len() {
                seq![s.subrange(w, e + 1)] + inline_matches(s, e + 1)
            } else {
                inline_matches(s, i + 1)
            }
        } else {
            inline_matches(s, i + 1)
        }
    } else {
        inline_matches(s, i + 1)
    }
}

#[via_fn]
proof fn inline_matches_decreases(s: Seq<char>, i: int) {
    if i < s.len() && s[i] == '-' {
        lemma_run_end(s, i + 1, CharClass::Space);
        let w = run_end(s, i + 1, CharClass::Space);
        if w < s.len() && s[w] == '{' {
            lemma_run_end(s, w + 1, CharClass::NotRBrace);
        }
    }
}

/// All inline-object matches of the whole text, braces included.
pub fn scan_inline_objects(v: &[char]) -> (r: Vec<Vec<char>>)
    ensures
        r.deep_view() == inline_matches(v@, 0),
{
    let l: usize = v.len();
    let mut r: Vec<Vec<char>> = Vec::new();
    let mut i: usize = 0;
    while i < l
        invariant
            l == v@.len(),
            0 <= i <= l,
            r.deep_view() + inline_matches(v@, i as int) == inline_matches(v@, 0),
        decreases l - i,
    {
        let ghost prev = r.deep_view();
        let mut advanced = false;
        if v[i] == '-' {
            let w = find_run_end(v, i + 1, CharClass::Space);
            if w < l && v[w] == '{' {
                let e = find_run_end(v, w + 1, CharClass::NotRBrace);
                if e < l {
                    let m = sub_chars(v, w, e + 1);
                    r.push(m);
                    proof {
                        lemma_run_end(v@, i + 1, CharClass::Space);
                        lemma_run_end(v@, w + 1, CharClass::NotRBrace);
                        assert(r.deep_view() =~~= prev.push(v@.subrange(w as int, e + 1)));
                        assert(r.deep_view() + inline_matches(v@, e + 1) =~~= inline_matches(
                            v@,
                            0,
                        ));
                    }
                    i = e + 1;
                    advanced = true;
                }
            }
        }
        if !advanced {
            i += 1;
        }
    }
    assert(inline_matches(v@, l as int) =~= Seq::<Seq<char>>::empty());
    assert(r.deep_view() =~= inline_matches(v@, 0));
    r
}

/// The pieces of the text from position `i` on, split at every colon, with the
/// semantics of Rust's `split(':')`: one piece more than there are colons.
pub open spec fn split_colon_from(s: Seq<char>, i: int) -> Seq<Seq<char>>
    decreases s.len() - i when 0 <= i <= s.len() via split_colon_from_decreases
{
    let k = run_end(s, i, CharClass::NotColon);
    if k >= s.len() {
        seq![s.subrange(i, s.len() as int)]
    } else {
        seq![s.subrange(i, k)] + split_colon_from(s, k + 1)
    }
}

#[via_fn]
proof fn split_colon_from_decreases(s: Seq<char>, i: int) {
    lemma_run_end(s, i, CharClass::NotColon);
}

/// The whole text split at every colon.
pub open spec fn split_colon(s: Seq<char>) -> Seq<Seq<char>> {
    split_colon_from(s, 0)
}

/// Splits at every colon, as Rust's `split(':')` does.
pub fn split_on_colon(v: &[char]) -> (r: Vec<Vec<char>>)
    ensures
        r.deep_view() == split_colon(v@),
{
    let l: usize = v.len();
    let mut r: Vec<Vec<char>> = Vec::new();
    let mut i: usize = 0;
    loop
        invariant_except_break
            r.deep_view() + split_colon_from(v@, i as int) == split_colon(v@),
        invariant
            l == v@.len(),
            0 <= i <= l,
        ensures
            r.deep_view() == split_colon(v@),
        decreases l - i,
    {
        let ghost prev = r.deep_view();
        let k = find_run_end(v, i, CharClass::NotColon);
        if k >= l {
            r.push(sub_chars(v, i, l));
            assert(r.deep_view() =~~= prev.push(v@.subrange(i as int, l as int)));
            assert(r.deep_view() =~~= split_colon(v@));
            break ;
        } else {
            r.push(sub_chars(v, i, k));
            proof {
                lemma_run_end(v@, i as int, CharClass::NotColon);
                assert(r.deep_view() =~~= prev.push(v@.subrange(i as int, k as int)));
                assert(r.deep_view() + split_colon_from(v@, k + 1) =~~= split_colon(v@));
            }
            i = k + 1;
        }
    }
    r
}

/// Index of the last colon of the text, if any.
pub open spec fn last_colon(s: Seq<char>) -> Option<int>
    decreases s.len(),
{
    if s.len() == 0 {
        None
    } else if s.last() == ':' {
        Some(s.len() - 1)
    } else {
        last_colon(s.drop_last())
    }
}

pub proof fn lemma_last_colon(s: Seq<char>)
    ensures
        match last_colon(s) {
            Some(k) => 0 <= k < s.len() && s[k] == ':' && forall|j: int|
                k < j < s.len() ==> s[j] != ':',
            None => forall|j: int| 0 <= j < s.len() ==> s[j] != ':',
        },
    decreases s.len(),
{
    if s.len() > 0 && s.last() != ':' {
        lemma_last_colon(s.drop_last());
        assert(forall|j: int| 0 <= j < s.len() - 1 ==> s.drop_last()[j] == s[j]);
    }
}

/// Finds the last colon, as Rust's `rfind(':')` does.
pub fn find_last_colon(v: &[char]) -> (r: Option<usize>)
    ensures
        match r {
            Some(k) => last_colon(v@) == Some(k as int),
            None => last_colon(v@) is None,
        },
{
    let mut i: usize = v.len();
    assert(v@.take(i as int) =~= v@);
    while i > 0
        invariant
            i <= v@.len(),
            last_colon(v@) == last_colon(v@.take(i as int)),
        decreases i,
    {
        assert(v@.take(i as int).drop_last() =~= v@.take(i - 1));
        if v[i - 1] == ':' {
            assert(last_colon(v@.take(i as int)) == Some(i - 1));
            return Some(i - 1);
        }
        i -= 1;
    }
    assert(v@.take(0) =~= Seq::<char>::empty());
    None
}

/// Host and port of a `host:port` segment: everything before the last colon is
/// the host (hosts may hold colons themselves), and what follows it must parse
/// as a port. `None` where there is no colon or the port does not parse.
pub open spec fn host_port_of(hp: Seq<char>) -> Option<(Seq<char>, u16)> {
    match last_colon(hp) {
        Some(k) => match crate::digits::parse_u16_spec(hp.skip(k + 1)) {
            Some(p) => Some((hp.take(k), p)),
            None => None,
        },
        None => None,
    }
}

/// Splits a `host:port` segment at its rightmost colon and parses the port.
pub fn split_host_port(v: &[char]) -> (r: Option<(Vec<char>, u16)>)
    ensures
        match r {
            Some(p) => host_port_of(v@) == Some((p.0@, p.1)),
            None => host_port_of(v@) is None,
        },
{
    let vl: usize = v.len();
    match find_last_colon(v) {
        Some(k) => {
            proof {
                lemma_last_colon(v@);
                assert(k < vl);
            }
            let port_part = sub_chars(v, k + 1, vl);
            assert(port_part@ =~= v@.skip(k + 1));
            match crate::digits::parse_port(port_part.as_slice()) {
                Some(p) => {
                    let host = sub_chars(v, 0, k);
                    assert(host@ =~= v@.take(k as int));
                    Some((host, p))
                },
                None => None,
            }
        },
        None => None,
    }
}

/// The characters of `v` between positions `a` and `b`.
pub fn sub_chars(v: &[char], a: usize, b: usize) -> (r: Vec<char>)
    requires
        a <= b <= v@.len(),
    ensures
        r@ == v@.subrange(a as int, b as int),
{
    let mut r: Vec<char> = Vec::new();
    let mut j: usize = a;
    while j < b
        invariant
            a <= j <= b <= v@.len(),
            r@.len() == j - a,
            forall|k: int| 0 <= k < r@.len() ==> r@[k] == v@[a + k],
        decreases b - j,
    {
        r.push(v[j]);
        j += 1;
    }
    assert(r@ =~= v@.subrange(a as int, b as int));
    r
}

} // verus!
