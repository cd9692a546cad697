//! The pure decisions of the four-stage pipeline: how a HEAD and a GET
//! response combine into one probe status, which probed URLs go on to the
//! fetch stage, what one fetch outcome contributes, and how per-body node
//! lists merge into the discovered set.

use vstd::prelude::*;
use crate::dedup::{dedup_spec, dedup_nodes};
use crate::dispatch::{subscription_nodes_spec, parse_subscription_safe};
use crate::models::{Node, UrlResult};

verus! {

/// A HEAD status the probe accepts as its answer without reissuing as GET.
pub open spec fn head_accepted_spec(s: u16) -> bool {
    s < 400
}

/// Whether a HEAD status is accepted as the probe's answer, so that no GET
/// need be issued.
pub fn head_accepted(s: u16) -> (r: bool)
    ensures
        r == head_accepted_spec(s),
{
    s < 400
}

/// The status a probe settles on: the HEAD status where it is accepted
/// (below 400), else whatever the GET attempt returned; `None` stands for a
/// timeout or transport failure of the attempt it came from.
pub open spec fn resolved_status(head: Option<u16>, get: Option<u16>) -> Option<u16> {
    match head {
        Some(s) => if head_accepted_spec(s) {
            Some(s)
        } else {
            get
        },
        None => get,
    }
}

/// Combines the HEAD outcome and the GET fallback outcome into the probe's
/// status.
pub fn resolve_probe_status(head: Option<u16>, get: Option<u16>) -> (r: Option<u16>)
    ensures
        r == resolved_status(head, get),
{
    match head {
        Some(s) => if head_accepted(s) {
            Some(s)
        } else {
            get
        },
        None => get,
    }
}

/// A rejected HEAD defers to GET: where the HEAD attempt fails outright or
/// returns a status the probe does not accept, the probe proceeds to GET and
/// whatever GET returns is authoritative for the status.
pub proof fn lemma_rejected_head_defers_to_get(head: Option<u16>, get: Option<u16>)
    requires
        head is None || !head_accepted_spec(head.unwrap()),
    ensures
        resolved_status(head, get) == get,
{
}

/// An accepted HEAD status stands on its own: no GET outcome can change it.
pub proof fn lemma_accepted_head_stands(s: u16, get: Option<u16>)
    requires
        head_accepted_spec(s),
    ensures
        resolved_status(Some(s), get) == Some(s),
{
}

/// The probe results that go on to the fetch stage: status exactly 200.
pub open spec fn working_spec(rs: Seq<UrlResult>) -> Seq<UrlResult>
    decreases rs.len(),
{
    if rs.len() == 0 {
        Seq::empty()
    } else {
        let rest = working_spec(rs.drop_last());
        if rs.last().status == Some(200u16) {
            rest.push(rs.last())
        } else {
            rest
        }
    }
}

/// Every probe result's membership in the working set depends on its status
/// alone: what a later fetch does cannot move a URL in or out of it.
pub proof fn lemma_working_membership(rs: Seq<UrlResult>)
    ensures
        forall|u: UrlResult| #[trigger]
            working_spec(rs).contains(u) <==> rs.contains(u) && u.status == Some(200u16),
    decreases rs.len(),
{
    if rs.len() > 0 {
        lemma_working_membership(rs.drop_last());
        assert forall|u: UrlResult| rs.contains(u) && u.status == Some(200u16) implies #[trigger]
            working_spec(rs).contains(u) by {
            let i = choose|i: int| 0 <= i < rs.len() && rs[i] == u;
            if i < rs.len() - 1 {
                assert(rs.drop_last()[i] == u);
                assert(rs.drop_last().contains(u));
                assert(working_spec(rs.drop_last()).contains(u));
                let j = choose|j: int|
                    0 <= j < working_spec(rs.drop_last()).len() && working_spec(rs.drop_last())[j]
                        == u;
                assert(working_spec(rs)[j] == u);
                assert(working_spec(rs).contains(u));
            } else {
                assert(working_spec(rs).last() == u);
                assert(working_spec(rs).contains(u));
            }
        }
        assert forall|u: UrlResult| #[trigger]
            working_spec(rs).contains(u) implies rs.contains(u) && u.status == Some(200u16) by {
            if working_spec(rs.drop_last()).contains(u) {
                assert(rs.drop_last().contains(u));
                let i = choose|i: int|
                    0 <= i < rs.drop_last().len() && rs.drop_last()[i] == u;
                assert(rs[i] == u);
                assert(rs.contains(u));
            } else {
                assert(u == rs.last());
                assert(rs[rs.len() - 1] == u);
            }
        }
    }
}

/// Keeps the probe results whose status is exactly 200, in order.
pub fn working_urls(results: Vec<UrlResult>) -> (r: Vec<UrlResult>)
    ensures
        r@ == working_spec(results@),
{
    let n: usize = results.len();
    let mut r: Vec<UrlResult> = Vec::new();
    let mut i: usize = 0;
    while i < n
        invariant
            n == results@.len(),
            0 <= i <= n,
            r@ == working_spec(results@.take(i as int)),
        decreases n - i,
    {
        if results[i].is_working() {
            let u = &results[i];
            r.push(UrlResult { url: u.url.clone(), status: u.status, latency: u.latency });
            assert(r@.last() == results@[i as int]);
        }
        proof {
            assert(results@.take(i + 1).drop_last() =~= results@.take(i as int));
            assert(results@.take(i + 1).last() == results@[i as int]);
            assert(r@ =~= working_spec(results@.take(i + 1)));
        }
        i += 1;
    }
    assert(results@.take(n as int) =~= results@);
    r
}

/// What one fetch outcome contributes to the node stage: nothing where the
/// fetch failed, the parsed nodes of the body where it succeeded. A URL whose
/// fetch fails thus yields zero nodes, while its probe result stands as it
/// was.
pub fn body_nodes(body: &Option<String>) -> (r: Vec<Node>)
    ensures
        match body {
            Some(b) => r.deep_view() == subscription_nodes_spec(b@),
            None => r.deep_view() == Seq::<(Seq<char>, u16)>::empty(),
        },
{
    match body {
        Some(b) => parse_subscription_safe(b.as_str()),
        None => {
            let r: Vec<Node> = Vec::new();
            assert(r.deep_view() =~= Seq::<(Seq<char>, u16)>::empty());
            r
        },
    }
}

/// The concatenation of all per-body node lists, in order.
pub open spec fn concat_all(ls: Seq<Seq<(Seq<char>, u16)>>) -> Seq<(Seq<char>, u16)>
    decreases ls.len(),
{
    if ls.len() == 0 {
        Seq::empty()
    } else {
        concat_all(ls.drop_last()) + ls.last()
    }
}

/// The discovered node set: every per-body list combined, structural
/// duplicates across all bodies collapsed.
pub fn merge_unique_nodes(lists: Vec<Vec<Node>>) -> (r: Vec<Node>)
    ensures
        r.deep_view() == dedup_spec(concat_all(lists.deep_view())),
{
    let mut all: Vec<Node> = Vec::new();
    let n: usize = lists.len();
    let mut i: usize = 0;
    while i < n
        invariant
            n == lists@.len(),
            0 <= i <= n,
            all.deep_view() == concat_all(lists.deep_view().take(i as int)),
        decreases n - i,
    {
        let ghost prev = all.deep_view();
        let inner = &lists[i];
        assert(inner.deep_view() =~~= lists.deep_view()[i as int]);
        let m: usize = inner.len();
        let mut j: usize = 0;
        while j < m
            invariant
                m == inner@.len(),
                inner.deep_view() == lists.deep_view()[i as int],
                0 <= j <= m,
                all.deep_view() == prev + inner.deep_view().take(j as int),
            decreases m - j,
        {
            let x = &inner[j];
            let nd = Node::new(x.host.clone(), x.port);
            assert(nd.deep_view() == x.deep_view());
            let ghost before = all.deep_view();
            all.push(nd);
            proof {
                assert(all@ == all@.subrange(0, all@.len() - 1).push(nd));
                assert(all.deep_view() =~~= before.push(nd.deep_view()));
                assert(x.deep_view() == inner.deep_view()[j as int]);
                assert(inner.deep_view().take(j + 1).drop_last() =~= inner.deep_view().take(
                    j as int,
                ));
                assert(inner.deep_view().take(j + 1).last() == inner.deep_view()[j as int]);
                assert(all.deep_view() =~~= prev + inner.deep_view().take(j + 1));
            }
            j += 1;
        }
        proof {
            assert(inner.deep_view().take(m as int) =~= inner.deep_view());
            assert(lists.deep_view().take(i + 1).drop_last() =~= lists.deep_view().take(i as int));
            assert(lists.deep_view().take(i + 1).last() == lists.deep_view()[i as int]);
            assert(all.deep_view() =~~= concat_all(lists.deep_view().take(i + 1)));
        }
        i += 1;
    }
    assert(lists.deep_view().take(n as int) =~= lists.deep_view());
    dedup_nodes(all)
}

} // verus!
