//! Deduplication of extracted URLs and discovered nodes: first occurrence
//! kept, order of first occurrences preserved.

use vstd::prelude::*;
use crate::models::Node;

verus! {

/// The sequence with every repeated element dropped: an element stays at its
/// first occurrence only.
pub open spec fn dedup_spec<T>(s: Seq<T>) -> Seq<T>
    decreases s.len(),
{
    if s.len() == 0 {
        Seq::empty()
    } else {
        let pre = dedup_spec(s.drop_last());
        if s.drop_last().contains(s.last()) {
            pre
        } else {
            pre.push(s.last())
        }
    }
}

/// Deduplication keeps exactly the elements: membership is unchanged.
pub proof fn lemma_dedup_membership<T>(s: Seq<T>)
    ensures
        forall|x: T| dedup_spec(s).contains(x) <==> s.contains(x),
    decreases s.len(),
{
    if s.len() > 0 {
        lemma_dedup_membership(s.drop_last());
        assert forall|x: T| s.contains(x) implies dedup_spec(s).contains(x) by {
            let i = choose|i: int| 0 <= i < s.len() && s[i] == x;
            if i < s.len() - 1 {
                assert(s.drop_last()[i] == x);
                assert(s.drop_last().contains(x));
                assert(dedup_spec(s.drop_last()).contains(x));
                let j = choose|j: int|
                    0 <= j < dedup_spec(s.drop_last()).len() && dedup_spec(s.drop_last())[j] == x;
                assert(dedup_spec(s)[j] == x);
            } else {
                assert(x == s.last());
                if s.drop_last().contains(s.last()) {
                    assert(dedup_spec(s.drop_last()).contains(x));
                    let j = choose|j: int|
                        0 <= j < dedup_spec(s.drop_last()).len() && dedup_spec(s.drop_last())[j]
                            == x;
                    assert(dedup_spec(s)[j] == x);
                } else {
                    assert(dedup_spec(s)[dedup_spec(s).len() - 1] == x);
                }
            }
        }
        assert forall|x: T| dedup_spec(s).contains(x) implies s.contains(x) by {
            if dedup_spec(s.drop_last()).contains(x) {
                assert(s.drop_last().contains(x));
                let i = choose|i: int| 0 <= i < s.drop_last().len() && s.drop_last()[i] == x;
                assert(s[i] == x);
            } else {
                assert(s[s.len() - 1] == x);
            }
        }
    }
}

/// No element appears twice after deduplication.
pub proof fn lemma_dedup_no_duplicates<T>(s: Seq<T>)
    ensures
        forall|i: int, j: int|
            0 <= i < j < dedup_spec(s).len() ==> dedup_spec(s)[i] != dedup_spec(s)[j],
    decreases s.len(),
{
    if s.len() > 0 {
        lemma_dedup_no_duplicates(s.drop_last());
        lemma_dedup_membership(s.drop_last());
        let pre = dedup_spec(s.drop_last());
        if !s.drop_last().contains(s.last()) {
            assert(!pre.contains(s.last()));
            assert forall|i: int, j: int|
                0 <= i < j < dedup_spec(s).len() implies dedup_spec(s)[i] != dedup_spec(s)[j] by {
                if j < pre.len() {
                } else {
                    assert(dedup_spec(s)[j] == s.last());
                    if dedup_spec(s)[i] == s.last() {
                        assert(pre[i] == s.last());
                        assert(pre.contains(s.last()));
                    }
                }
            }
        }
    }
}

/// A sequence without duplicates deduplicates to itself.
pub proof fn lemma_dedup_of_distinct<T>(s: Seq<T>)
    requires
        forall|i: int, j: int| 0 <= i < j < s.len() ==> s[i] != s[j],
    ensures
        dedup_spec(s) == s,
    decreases s.len(),
{
    if s.len() > 0 {
        lemma_dedup_of_distinct(s.drop_last());
        if s.drop_last().contains(s.last()) {
            let i = choose|i: int| 0 <= i < s.len() - 1 && s.drop_last()[i] == s.last();
            assert(s[i] == s[s.len() - 1]);
        }
        assert(dedup_spec(s) =~= s);
    }
}

/// Deduplicating a second time changes nothing: the deduplicated set is a
/// fixed point, so extracting the same text twice yields the same set.
pub proof fn lemma_dedup_idempotent<T>(s: Seq<T>)
    ensures
        dedup_spec(dedup_spec(s)) == dedup_spec(s),
{
    lemma_dedup_no_duplicates(s);
    lemma_dedup_of_distinct(dedup_spec(s));
}

/// Two nodes of the same host and different ports are distinct, and
/// deduplication keeps them both.
pub proof fn lemma_distinct_ports_both_kept(
    s: Seq<(Seq<char>, u16)>,
    a: (Seq<char>, u16),
    b: (Seq<char>, u16),
)
    requires
        s.contains(a),
        s.contains(b),
        a.1 != b.1,
    ensures
        a != b,
        dedup_spec(s).contains(a),
        dedup_spec(s).contains(b),
{
    lemma_dedup_membership(s);
}

/// Whether the vector already holds this URL.
fn vec_contains_string(v: &Vec<String>, x: &String) -> (r: bool)
    ensures
        r == v.deep_view().contains(x@),
{
    let n: usize = v.len();
    let mut i: usize = 0;
    while i < n
        invariant
            n == v@.len(),
            0 <= i <= n,
            forall|k: int| 0 <= k < i ==> v.deep_view()[k] != x@,
        decreases n - i,
    {
        if v[i].eq(x) {
            assert(v.deep_view()[i as int] == x@);
            return true;
        }
        i += 1;
    }
    false
}

/// The extracted URLs with duplicates collapsed, first occurrences kept in
/// order.
pub fn dedup_urls(urls: Vec<String>) -> (r: Vec<String>)
    ensures
        r.deep_view() == dedup_spec(urls.deep_view()),
{
    let n: usize = urls.len();
    let mut r: Vec<String> = Vec::new();
    let mut i: usize = 0;
    while i < n
        invariant
            n == urls@.len(),
            0 <= i <= n,
            r.deep_view() == dedup_spec(urls.deep_view().take(i as int)),
        decreases n - i,
    {
        let ghost seen = urls.deep_view().take(i as int);
        proof {
            lemma_dedup_membership(seen);
        }
        let u = &urls[i];
        assert(urls.deep_view()[i as int] == u@);
        if !vec_contains_string(&r, u) {
            r.push(u.clone());
        }
        proof {
            assert(urls.deep_view().take(i + 1).drop_last() =~= seen);
            assert(urls.deep_view().take(i + 1).last() == u@);
            assert(r.deep_view() =~~= dedup_spec(urls.deep_view().take(i + 1)));
        }
        i += 1;
    }
    assert(urls.deep_view().take(n as int) =~= urls.deep_view());
    r
}

/// Whether the vector already holds a structurally equal node.
fn vec_contains_node(v: &Vec<Node>, x: &Node) -> (r: bool)
    ensures
        r == v.deep_view().contains(x.deep_view()),
{
    let n: usize = v.len();
    let mut i: usize = 0;
    while i < n
        invariant
            n == v@.len(),
            0 <= i <= n,
            forall|k: int| 0 <= k < i ==> v.deep_view()[k] != x.deep_view(),
        decreases n - i,
    {
        if v[i].host.eq(&x.host) && v[i].port == x.port {
            assert(v.deep_view()[i as int] == x.deep_view());
            return true;
        }
        i += 1;
    }
    false
}

/// The discovered nodes with structural duplicates collapsed: a node seen in
/// two bodies counts once.
pub fn dedup_nodes(nodes: Vec<Node>) -> (r: Vec<Node>)
    ensures
        r.deep_view() == dedup_spec(nodes.deep_view()),
{
    let n: usize = nodes.len();
    let mut r: Vec<Node> = Vec::new();
    let mut i: usize = 0;
    while i < n
        invariant
            n == nodes@.len(),
            0 <= i <= n,
            r.deep_view() == dedup_spec(nodes.deep_view().take(i as int)),
        decreases n - i,
    {
        let ghost seen = nodes.deep_view().take(i as int);
        proof {
            lemma_dedup_membership(seen);
        }
        let x = &nodes[i];
        assert(nodes.deep_view()[i as int] == x.deep_view());
        if !vec_contains_node(&r, x) {
            r.push(Node::new(x.host.clone(), x.port));
        }
        proof {
            assert(nodes.deep_view().take(i + 1).drop_last() =~= seen);
            assert(nodes.deep_view().take(i + 1).last() == x.deep_view());
            assert(r.deep_view() =~~= dedup_spec(nodes.deep_view().take(i + 1)));
        }
        i += 1;
    }
    assert(nodes.deep_view().take(n as int) =~= nodes.deep_view());
    r
}

} // verus!
