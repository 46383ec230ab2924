//! Sorting edges by caller and callee.

use crate::order::{
    edge_le, edge_less, edge_lt, edge_order, edge_view, edge_views, edges_sorted,
    lemma_edge_le_total, lemma_edge_lt_transitive, lemma_edge_lt_trichotomy, Edge,
};
use vstd::prelude::*;
use vstd::seq_lib::{lemma_sorted_unique, to_multiset_build, to_multiset_insert};

verus! {

/// `edges` in sorted order: the same edges, each as often as before, none before a smaller one.
pub open spec fn sorted_edges(edges: Seq<Edge>) -> Seq<Edge> {
    edges.sort_by(edge_order())
}

/// Sorting gives a sorted list of the same edges.
pub proof fn lemma_sorted_edges(edges: Seq<Edge>)
    ensures
        edges_sorted(sorted_edges(edges)),
        sorted_edges(edges).to_multiset() == edges.to_multiset(),
        sorted_edges(edges).len() == edges.len(),
{
    lemma_edge_le_total();
    edges.lemma_sort_by_ensures(edge_order());
    edges.to_multiset_ensures();
    sorted_edges(edges).to_multiset_ensures();
}

/// There is one sorted list of given edges only.
pub proof fn lemma_sorted_edges_unique(edges: Seq<Edge>, other: Seq<Edge>)
    requires
        edges_sorted(other),
        other.to_multiset() == edges.to_multiset(),
    ensures
        other == sorted_edges(edges),
{
    lemma_edge_le_total();
    lemma_sorted_edges(edges);
    lemma_sorted_unique(other, sorted_edges(edges), edge_order());
}

/// The place at which `edge` goes into `sorted`: behind everything that does not come
/// after it.
fn edge_slot(sorted: &Vec<(String, String)>, edge: &(String, String)) -> (at: usize)
    requires
        edges_sorted(edge_views(sorted@)),
    ensures
        at <= sorted.len(),
        forall|i: int| 0 <= i < at ==> edge_le(#[trigger] edge_views(sorted@)[i], edge_view(*edge)),
        forall|i: int|
            at <= i < sorted.len() ==> edge_lt(edge_view(*edge), #[trigger] edge_views(sorted@)[i]),
{
    let ghost v = edge_views(sorted@);
    let ghost e = edge_view(*edge);
    let mut lo: usize = 0;
    let mut hi: usize = sorted.len();
    while lo < hi
        invariant
            lo <= hi <= sorted.len(),
            v == edge_views(sorted@),
            e == edge_view(*edge),
            edges_sorted(v),
            forall|i: int| 0 <= i < lo ==> edge_le(#[trigger] v[i], e),
            forall|i: int| hi <= i < sorted.len() ==> edge_lt(e, #[trigger] v[i]),
        decreases hi - lo,
    {
        let mid: usize = lo + (hi - lo) / 2;
        if edge_less(edge, &sorted[mid]) {
            proof {
                assert forall|i: int| mid <= i < sorted.len() implies edge_lt(e, #[trigger] v[i]) by {
                    if i > mid {
                        assert(edge_order()(v[mid as int], v[i]));
                        if v[mid as int] != v[i] {
                            lemma_edge_lt_transitive(e, v[mid as int], v[i]);
                        }
                    }
                }
            }
            hi = mid;
        } else {
            proof {
                lemma_edge_lt_trichotomy(e, v[mid as int]);
                assert forall|i: int| 0 <= i < mid + 1 implies edge_le(#[trigger] v[i], e) by {
                    if i < mid {
                        assert(edge_order()(v[i], v[mid as int]));
                        if v[i] != v[mid as int] && v[mid as int] != e {
                            lemma_edge_lt_transitive(v[i], v[mid as int], e);
                        }
                    }
                }
            }
            lo = mid + 1;
        }
    }
    lo
}

/// Sorts edges by caller, and by callee where the callers are the same. Each edge is put
/// into place by binary search, so the strings are compared `O(n log n)` times.
pub fn sort_edges(edges: Vec<(String, String)>) -> (sorted: Vec<(String, String)>)
    ensures
        edge_views(sorted@) == sorted_edges(edge_views(edges@)),
{
    let ghost all = edge_views(edges@);
    let mut rest = edges;
    let mut sorted: Vec<(String, String)> = Vec::new();
    proof {
        assert(edge_views(sorted@) =~= Seq::<Edge>::empty());
        Seq::<Edge>::empty().to_multiset_ensures();
    }
    while rest.len() > 0
        invariant
            edges_sorted(edge_views(sorted@)),
            edge_views(sorted@).to_multiset().add(edge_views(rest@).to_multiset())
                == all.to_multiset(),
        decreases rest.len(),
    {
        let ghost r0 = edge_views(rest@);
        let ghost s0 = edge_views(sorted@);
        let edge = rest.pop().unwrap();
        let ghost e = edge_view(edge);
        let at = edge_slot(&sorted, &edge);
        sorted.insert(at, edge);
        proof {
            let r1 = edge_views(rest@);
            let s1 = edge_views(sorted@);
            assert(r0 =~= r1.push(e));
            to_multiset_build(r1, e);
            assert(s1 =~= s0.insert(at as int, e));
            to_multiset_insert(s0, at as int, e);
            assert forall|i: int, j: int| 0 <= i < j < s1.len() implies edge_le(s1[i], s1[j]) by {
                if j < at {
                    assert(edge_order()(s0[i], s0[j]));
                } else if j > at && i < at {
                    if s0[i] != e {
                        lemma_edge_lt_transitive(s0[i], e, s0[j - 1]);
                    }
                } else if i > at {
                    assert(edge_order()(s0[i - 1], s0[j - 1]));
                }
            }
        }
    }
    proof {
        let s = edge_views(sorted@);
        assert(edge_views(rest@) =~= Seq::<Edge>::empty());
        Seq::<Edge>::empty().to_multiset_ensures();
        assert(s.to_multiset() =~= all.to_multiset());
        lemma_sorted_edges_unique(all, s);
    }
    sorted
}

} // verus!
