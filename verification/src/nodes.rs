//! The nodes of a graph: the names that its edges mention, labelled from one in sorted
//! order.

use crate::order::{
    edge_views, lemma_str_lt_irreflexive, lemma_str_lt_transitive, lemma_str_lt_trichotomy, less,
    str_lt, strictly_increasing, texts, Edge,
};
use vstd::prelude::*;

verus! {

/// `edge` has `name` as its caller or as its callee.
pub open spec fn touches(edge: Edge, name: Seq<char>) -> bool {
    edge.0 == name || edge.1 == name
}

/// One of `edges` has `name` as its caller or as its callee.
pub open spec fn mentions(edges: Seq<Edge>, name: Seq<char>) -> bool {
    exists|i: int| 0 <= i < edges.len() && touches(#[trigger] edges[i], name)
}

/// `names` lists the names that `edges` mention, each once, in strictly increasing order.
pub open spec fn is_node_list(names: Seq<Seq<char>>, edges: Seq<Edge>) -> bool {
    &&& strictly_increasing(names)
    &&& forall|name: Seq<char>| #[trigger] names.contains(name) <==> mentions(edges, name)
}

/// The names that `edges` mention, each once, in strictly increasing order.
pub open spec fn node_list(edges: Seq<Edge>) -> Seq<Seq<char>> {
    choose|names: Seq<Seq<char>>| is_node_list(names, edges)
}

/// The label of `name` where `names` are the nodes: its place in the list, counted from
/// one, and zero for a name that is not in the list.
pub open spec fn label_in(names: Seq<Seq<char>>, name: Seq<char>) -> nat {
    if names.contains(name) {
        (names.index_of(name) + 1) as nat
    } else {
        0
    }
}

/// Two strictly increasing lists that hold the same names are the same list.
pub proof fn lemma_increasing_unique(a: Seq<Seq<char>>, b: Seq<Seq<char>>)
    requires
        strictly_increasing(a),
        strictly_increasing(b),
        forall|name: Seq<char>| a.contains(name) <==> b.contains(name),
    ensures
        a == b,
    decreases a.len(),
{
    if a.len() == 0 {
        if b.len() > 0 {
            assert(b.contains(b[0]));
        }
    } else {
        let top = a.last();
        assert(b.contains(top));
        assert(a.contains(b.last()));
        lemma_str_lt_trichotomy(top, b.last());
        let a0 = a.drop_last();
        let b0 = b.drop_last();
        assert forall|name: Seq<char>| a0.contains(name) <==> b0.contains(name) by {
            lemma_str_lt_irreflexive(top);
            if a0.contains(name) {
                let i = choose|i: int| 0 <= i < a0.len() && a0[i] == name;
                assert(a.contains(name));
                let j = choose|j: int| 0 <= j < b.len() && b[j] == name;
                assert(b0[j] == name);
            }
            if b0.contains(name) {
                let j = choose|j: int| 0 <= j < b0.len() && b0[j] == name;
                assert(b.contains(name));
                let i = choose|i: int| 0 <= i < a.len() && a[i] == name;
                assert(a0[i] == name);
            }
        }
        lemma_increasing_unique(a0, b0);
        assert(b =~= b0.push(top));
    }
}

/// A strictly increasing list of the names that `edges` mention is *the* node list.
pub proof fn lemma_node_list_unique(names: Seq<Seq<char>>, edges: Seq<Edge>)
    requires
        is_node_list(names, edges),
    ensures
        names == node_list(edges),
{
    lemma_increasing_unique(names, node_list(edges));
}

/// A strictly increasing list with `name` put in, unless it is there already.
proof fn lemma_with_name(names: Seq<Seq<char>>, name: Seq<char>) -> (longer: Seq<Seq<char>>)
    requires
        strictly_increasing(names),
    ensures
        strictly_increasing(longer),
        forall|other: Seq<char>|
            longer.contains(other) <==> (names.contains(other) || other == name),
    decreases names.len(),
{
    if names.len() == 0 {
        let longer = seq![name];
        assert(longer[0] == name);
        longer
    } else {
        let top = names.last();
        lemma_str_lt_trichotomy(top, name);
        if top == name {
            names
        } else if str_lt(top, name) {
            let longer = names.push(name);
            assert forall|i: int, j: int| 0 <= i < j < longer.len() implies str_lt(
                longer[i],
                longer[j],
            ) by {
                if j == names.len() && i < names.len() - 1 {
                    lemma_str_lt_transitive(names[i], top, name);
                }
            }
            assert forall|other: Seq<char>|
                longer.contains(other) <==> (names.contains(other) || other == name) by {
                if names.contains(other) {
                    let i = choose|i: int| 0 <= i < names.len() && names[i] == other;
                    assert(longer[i] == other);
                }
                if other == name {
                    assert(longer[names.len() as int] == other);
                }
            }
            longer
        } else {
            let shorter = names.drop_last();
            let inner = lemma_with_name(shorter, name);
            let longer = inner.push(top);
            assert forall|i: int, j: int| 0 <= i < j < longer.len() implies str_lt(
                longer[i],
                longer[j],
            ) by {
                if j == inner.len() {
                    assert(inner.contains(inner[i]));
                }
            }
            assert forall|other: Seq<char>|
                longer.contains(other) <==> (names.contains(other) || other == name) by {
                if longer.contains(other) {
                    let i = choose|i: int| 0 <= i < longer.len() && longer[i] == other;
                    if i < inner.len() {
                        assert(inner.contains(other));
                    }
                }
                if names.contains(other) {
                    let k = choose|k: int| 0 <= k < names.len() && names[k] == other;
                    if k < shorter.len() {
                        assert(shorter[k] == other);
                        assert(shorter.contains(other));
                        let i = choose|i: int| 0 <= i < inner.len() && inner[i] == other;
                        assert(longer[i] == other);
                    } else {
                        assert(longer[inner.len() as int] == other);
                    }
                }
                if other == name {
                    assert(inner.contains(other));
                    let i = choose|i: int| 0 <= i < inner.len() && inner[i] == other;
                    assert(longer[i] == other);
                }
            }
            longer
        }
    }
}

/// Every list of edges has its node list: the names that the edges mention, each once, in
/// strictly increasing order.
pub proof fn lemma_node_list(edges: Seq<Edge>)
    ensures
        is_node_list(node_list(edges), edges),
    decreases edges.len(),
{
    if edges.len() == 0 {
        let none = Seq::<Seq<char>>::empty();
        assert(is_node_list(none, edges));
    } else {
        let seen = edges.drop_last();
        let edge = edges.last();
        lemma_node_list(seen);
        let with_caller = lemma_with_name(node_list(seen), edge.0);
        let with_both = lemma_with_name(with_caller, edge.1);
        assert forall|name: Seq<char>| #[trigger]
            with_both.contains(name) <==> mentions(edges, name) by {
            if mentions(edges, name) {
                let k = choose|k: int| 0 <= k < edges.len() && touches(#[trigger] edges[k], name);
                if k < seen.len() {
                    assert(touches(seen[k], name));
                }
            }
            if node_list(seen).contains(name) {
                let k = choose|k: int| 0 <= k < seen.len() && touches(#[trigger] seen[k], name);
                assert(touches(edges[k], name));
            }
            if name == edge.0 || name == edge.1 {
                assert(touches(edges[edges.len() - 1], name));
            }
        }
        assert(is_node_list(with_both, edges));
    }
}

/// The place of `name` in `names`, or the place at which it would go: behind the names
/// that come before it.
fn name_slot(names: &Vec<String>, name: &String) -> (at: usize)
    requires
        strictly_increasing(texts(names@)),
    ensures
        at <= names.len(),
        forall|i: int| 0 <= i < at ==> str_lt(#[trigger] texts(names@)[i], name@),
        forall|i: int| at <= i < names.len() ==> !str_lt(#[trigger] texts(names@)[i], name@),
{
    let ghost v = texts(names@);
    let mut lo: usize = 0;
    let mut hi: usize = names.len();
    while lo < hi
        invariant
            lo <= hi <= names.len(),
            v == texts(names@),
            strictly_increasing(v),
            forall|i: int| 0 <= i < lo ==> str_lt(#[trigger] v[i], name@),
            forall|i: int| hi <= i < names.len() ==> !str_lt(#[trigger] v[i], name@),
        decreases hi - lo,
    {
        let mid: usize = lo + (hi - lo) / 2;
        if less(names[mid].as_str(), name.as_str()) {
            proof {
                assert forall|i: int| 0 <= i < mid + 1 implies str_lt(#[trigger] v[i], name@) by {
                    if i < mid {
                        lemma_str_lt_transitive(v[i], v[mid as int], name@);
                    }
                }
            }
            lo = mid + 1;
        } else {
            proof {
                assert forall|i: int| mid <= i < names.len() implies !str_lt(
                    #[trigger] v[i],
                    name@,
                ) by {
                    if i > mid && str_lt(v[i], name@) {
                        lemma_str_lt_transitive(v[mid as int], v[i], name@);
                    }
                }
            }
            hi = mid;
        }
    }
    lo
}

/// Puts `name` into `names` at its place in the order, unless it is there already.
fn add_name(names: &mut Vec<String>, name: &String)
    requires
        strictly_increasing(texts(old(names)@)),
    ensures
        strictly_increasing(texts(final(names)@)),
        forall|other: Seq<char>|
            texts(final(names)@).contains(other) <==> (texts(old(names)@).contains(other) || other
                == name@),
{
    let ghost v0 = texts(names@);
    let at = name_slot(names, name);
    if at < names.len() && names[at] == *name {
        assert(v0[at as int] == name@);
        return ;
    }
    names.insert(at, name.clone());
    proof {
        let v1 = texts(names@);
        assert(v1 =~= v0.insert(at as int, name@));
        assert forall|i: int, j: int| 0 <= i < j < v1.len() implies str_lt(v1[i], v1[j]) by {
            if j > at {
                lemma_str_lt_trichotomy(name@, v0[at as int]);
                if j - 1 > at {
                    lemma_str_lt_transitive(name@, v0[at as int], v0[j - 1]);
                }
                if i < at {
                    lemma_str_lt_transitive(v0[i], name@, v0[j - 1]);
                }
            }
        }
        assert forall|other: Seq<char>| v1.contains(other) <==> (v0.contains(other) || other
            == name@) by {
            if v1.contains(other) {
                let i = choose|i: int| 0 <= i < v1.len() && v1[i] == other;
                if i > at {
                    assert(v0[i - 1] == other);
                }
            }
            if v0.contains(other) {
                let i = choose|i: int| 0 <= i < v0.len() && v0[i] == other;
                if i < at {
                    assert(v1[i] == other);
                } else {
                    assert(v1[i + 1] == other);
                }
            }
            if other == name@ {
                assert(v1[at as int] == other);
            }
        }
    }
}

/// The nodes of a graph in the order of their labels: the names that its edges mention,
/// each once, in strictly increasing order. The node at place `i` has the label `i + 1`.
pub struct NodeLabels {
    names: Vec<String>,
}

impl View for NodeLabels {
    type V = Seq<Seq<char>>;

    closed spec fn view(&self) -> Seq<Seq<char>> {
        texts(self.names@)
    }
}

impl NodeLabels {
    #[verifier::type_invariant]
    spec fn ordered(self) -> bool {
        strictly_increasing(texts(self.names@))
    }

    /// Numbers the names that `edges` mention.
    pub fn from_edges(edges: &Vec<(String, String)>) -> (labels: NodeLabels)
        ensures
            labels@ == node_list(edge_views(edges@)),
    {
        let ghost all = edge_views(edges@);
        let mut names: Vec<String> = Vec::new();
        let mut i: usize = 0;
        while i < edges.len()
            invariant
                i <= edges.len(),
                all == edge_views(edges@),
                is_node_list(texts(names@), all.take(i as int)),
            decreases edges.len() - i,
        {
            let ghost v0 = texts(names@);
            add_name(&mut names, &edges[i].0);
            let ghost v1 = texts(names@);
            add_name(&mut names, &edges[i].1);
            proof {
                let v2 = texts(names@);
                let seen = all.take(i as int);
                let next = all.take(i + 1);
                assert forall|name: Seq<char>| #[trigger]
                    v2.contains(name) <==> mentions(next, name) by {
                    if mentions(next, name) {
                        let k = choose|k: int| 0 <= k < next.len() && touches(#[trigger] next[k], name);
                        if k < i {
                            assert(touches(seen[k], name));
                        }
                    }
                    if v0.contains(name) {
                        let k = choose|k: int| 0 <= k < seen.len() && touches(#[trigger] seen[k], name);
                        assert(touches(next[k], name));
                    }
                    if name == all[i as int].0 || name == all[i as int].1 {
                        assert(touches(next[i as int], name));
                    }
                }
            }
            i += 1;
        }
        proof {
            assert(all.take(i as int) =~= all);
            lemma_node_list_unique(texts(names@), all);
        }
        NodeLabels { names }
    }

    /// The number of nodes, which is the greatest label.
    pub fn len(&self) -> (n: usize)
        ensures
            n == self@.len(),
    {
        self.names.len()
    }

    /// The name of the node with the given label, if there is such a node.
    pub fn name(&self, label: usize) -> (name: Option<&String>)
        ensures
            match name {
                Some(name) => 1 <= label <= self@.len() && name@ == self@[label - 1],
                None => label == 0 || label > self@.len(),
            },
    {
        if 1 <= label && label <= self.names.len() {
            Some(&self.names[label - 1])
        } else {
            None
        }
    }

    /// The label of `name`, or zero if no node has that name.
    pub fn label_of(&self, name: &String) -> (label: usize)
        ensures
            label == label_in(self@, name@),
    {
        proof {
            use_type_invariant(self);
        }
        let at = name_slot(&self.names, name);
        if at < self.names.len() && self.names[at] == *name {
            proof {
                let v = self@;
                assert(v[at as int] == name@);
                assert(v.contains(name@));
                lemma_str_lt_irreflexive(name@);
            }
            at + 1
        } else {
            proof {
                let v = self@;
                if v.contains(name@) {
                    let k = choose|k: int| 0 <= k < v.len() && v[k] == name@;
                    lemma_str_lt_irreflexive(name@);
                    if k > at {
                        assert(str_lt(v[at as int], v[k]));
                    }
                }
            }
            0
        }
    }
}

} // verus!
