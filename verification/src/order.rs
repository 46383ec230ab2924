//! The order of names and of edges: strings compare character by character, by code point,
//! and edges compare by caller first, then by callee.

use vstd::prelude::*;
use vstd::relations::{sorted_by, total_ordering};
use vstd::std_specs::iter::IteratorSpec;

verus! {

/// A call edge as the contracts see it: the caller's name and the callee's name.
pub type Edge = (Seq<char>, Seq<char>);

/// The texts of a list of strings.
pub open spec fn texts(strings: Seq<String>) -> Seq<Seq<char>> {
    strings.map_values(|s: String| s@)
}

/// The edge that a pair of strings stands for.
pub open spec fn edge_view(edge: (String, String)) -> Edge {
    (edge.0@, edge.1@)
}

/// The edges that a list of pairs of strings stands for.
pub open spec fn edge_views(edges: Seq<(String, String)>) -> Seq<Edge> {
    edges.map_values(|edge: (String, String)| edge_view(edge))
}

/// `a` comes before `b`, given that the two agree on their first `k` characters.
pub open spec fn lt_from(a: Seq<char>, b: Seq<char>, k: int) -> bool
    decreases a.len() - k,
{
    if k < 0 || k >= b.len() {
        false
    } else if k >= a.len() {
        true
    } else if a[k] != b[k] {
        a[k] < b[k]
    } else {
        lt_from(a, b, k + 1)
    }
}

/// `a` comes strictly before `b` in lexicographic order: at the first position where the
/// two differ `a` holds the smaller code point, or `a` is a proper prefix of `b`.
pub open spec fn str_lt(a: Seq<char>, b: Seq<char>) -> bool {
    lt_from(a, b, 0)
}

/// `a` comes strictly before `b`: by caller, and by callee where the callers are the same.
pub open spec fn edge_lt(a: Edge, b: Edge) -> bool {
    str_lt(a.0, b.0) || (a.0 == b.0 && str_lt(a.1, b.1))
}

/// `a` comes before `b`, or is `b`.
pub open spec fn edge_le(a: Edge, b: Edge) -> bool {
    a == b || edge_lt(a, b)
}

/// The order of edges, as a relation.
pub open spec fn edge_order() -> spec_fn(Edge, Edge) -> bool {
    |a: Edge, b: Edge| edge_le(a, b)
}

/// Every name of `names` comes strictly before those behind it.
pub open spec fn strictly_increasing(names: Seq<Seq<char>>) -> bool {
    forall|i: int, j: int| 0 <= i < j < names.len() ==> str_lt(names[i], names[j])
}

/// No edge of `edges` comes strictly after one behind it.
pub open spec fn edges_sorted(edges: Seq<Edge>) -> bool {
    sorted_by(edges, edge_order())
}

proof fn lemma_lt_from_irreflexive(a: Seq<char>, k: int)
    requires
        0 <= k,
    ensures
        !lt_from(a, a, k),
    decreases a.len() - k,
{
    if k < a.len() {
        lemma_lt_from_irreflexive(a, k + 1);
    }
}

proof fn lemma_lt_from_transitive(a: Seq<char>, b: Seq<char>, c: Seq<char>, k: int)
    requires
        0 <= k,
        lt_from(a, b, k),
        lt_from(b, c, k),
    ensures
        lt_from(a, c, k),
    decreases a.len() - k,
{
    if k < a.len() && a[k] == b[k] && b[k] == c[k] {
        lemma_lt_from_transitive(a, b, c, k + 1);
    }
}

proof fn lemma_lt_from_connected(a: Seq<char>, b: Seq<char>, k: int)
    requires
        0 <= k <= a.len(),
        k <= b.len(),
        a.take(k) == b.take(k),
        a != b,
    ensures
        lt_from(a, b, k) || lt_from(b, a, k),
    decreases a.len() - k,
{
    if k < a.len() && k < b.len() && a[k] == b[k] {
        assert(a.take(k + 1) == a.take(k).push(a[k]));
        assert(b.take(k + 1) == b.take(k).push(b[k]));
        lemma_lt_from_connected(a, b, k + 1);
    } else if k == a.len() && k == b.len() {
        assert(a == a.take(k));
        assert(b == b.take(k));
    }
}

/// No string comes before itself.
pub proof fn lemma_str_lt_irreflexive(a: Seq<char>)
    ensures
        !str_lt(a, a),
{
    lemma_lt_from_irreflexive(a, 0);
}

/// What comes before something that comes before `c` comes before `c`.
pub proof fn lemma_str_lt_transitive(a: Seq<char>, b: Seq<char>, c: Seq<char>)
    requires
        str_lt(a, b),
        str_lt(b, c),
    ensures
        str_lt(a, c),
{
    lemma_lt_from_transitive(a, b, c, 0);
}

/// Of two strings one comes before the other, unless they are the same; never both.
pub proof fn lemma_str_lt_trichotomy(a: Seq<char>, b: Seq<char>)
    ensures
        a == b || str_lt(a, b) || str_lt(b, a),
        !(str_lt(a, b) && str_lt(b, a)),
        a == b ==> !str_lt(a, b),
{
    if a != b {
        assert(a.take(0) == b.take(0));
        lemma_lt_from_connected(a, b, 0);
    }
    if str_lt(a, b) && str_lt(b, a) {
        lemma_str_lt_transitive(a, b, a);
    }
    lemma_str_lt_irreflexive(a);
}

/// What comes before something that comes before `c` comes before `c`.
pub proof fn lemma_edge_lt_transitive(a: Edge, b: Edge, c: Edge)
    requires
        edge_lt(a, b),
        edge_lt(b, c),
    ensures
        edge_lt(a, c),
{
    lemma_str_lt_irreflexive(a.0);
    lemma_str_lt_irreflexive(b.0);
    if str_lt(a.0, b.0) && str_lt(b.0, c.0) {
        lemma_str_lt_transitive(a.0, b.0, c.0);
    }
    if a.0 == b.0 && b.0 == c.0 {
        lemma_str_lt_transitive(a.1, b.1, c.1);
    }
}

/// Of two edges one comes before the other, unless they are the same; never both.
pub proof fn lemma_edge_lt_trichotomy(a: Edge, b: Edge)
    ensures
        a == b || edge_lt(a, b) || edge_lt(b, a),
        !(edge_lt(a, b) && edge_lt(b, a)),
        a == b ==> !edge_lt(a, b),
{
    lemma_str_lt_trichotomy(a.0, b.0);
    lemma_str_lt_trichotomy(a.1, b.1);
}

/// The order of edges is a total order.
pub proof fn lemma_edge_le_total()
    ensures
        total_ordering(edge_order()),
{
    let le = edge_order();
    assert forall|a: Edge, b: Edge| #[trigger] le(a, b) && #[trigger] le(b, a) implies a == b by {
        lemma_edge_lt_trichotomy(a, b);
    }
    assert forall|a: Edge, b: Edge, c: Edge| #[trigger] le(a, b) && #[trigger] le(b, c) implies le(
        a,
        c,
    ) by {
        if a != b && b != c {
            lemma_edge_lt_transitive(a, b, c);
        }
    }
    assert forall|a: Edge, b: Edge| #[trigger] le(a, b) || #[trigger] le(b, a) by {
        lemma_edge_lt_trichotomy(a, b);
    }
}

/// Tells whether `a` comes strictly before `b`.
pub fn less(a: &str, b: &str) -> (r: bool)
    ensures
        r == str_lt(a@, b@),
{
    let mut left = a.chars();
    let mut right = b.chars();
    let ghost mut k: int = 0;
    loop
        invariant
            0 <= k <= a@.len(),
            k <= b@.len(),
            left.remaining() == a@.skip(k),
            right.remaining() == b@.skip(k),
            str_lt(a@, b@) == lt_from(a@, b@, k),
            left.decrease() is Some,
            right.decrease() is Some,
        decreases right.decrease()->0,
    {
        match right.next() {
            None => {
                return false;
            },
            Some(y) => {
                match left.next() {
                    None => {
                        return true;
                    },
                    Some(x) => {
                        if x != y {
                            return x < y;
                        }
                    },
                }
            },
        }
        proof {
            k = k + 1;
        }
    }
}

/// Tells whether edge `a` comes strictly before edge `b`.
pub fn edge_less(a: &(String, String), b: &(String, String)) -> (r: bool)
    ensures
        r == edge_lt(edge_view(*a), edge_view(*b)),
{
    if less(a.0.as_str(), b.0.as_str()) {
        true
    } else if a.0 == b.0 {
        less(a.1.as_str(), b.1.as_str())
    } else {
        false
    }
}

} // verus!
