//! The graph emitter: it numbers the names that the edges mention and writes nodes and
//! edges as text.

use crate::decimal::{decimal, push_decimal};
use crate::nodes::{
    label_in, lemma_node_list, lemma_node_list_unique, mentions, node_list, touches, NodeLabels,
};
use crate::order::{edge_le, edge_order, edge_views, lemma_str_lt_irreflexive, str_lt, Edge};
use crate::sorting::{lemma_sorted_edges, sorted_edges};
use vstd::prelude::*;
use vstd::string::StringExecFns;

verus! {

/// The record of the node at place `i`: its label, a space, its name.
pub open spec fn node_record(names: Seq<Seq<char>>, i: int) -> Seq<char> {
    decimal((i + 1) as nat) + seq![' '] + names[i]
}

/// The record of an edge: the caller's label, a space, the callee's label.
pub open spec fn edge_record(names: Seq<Seq<char>>, edge: Edge) -> Seq<char> {
    decimal(label_in(names, edge.0)) + seq![' '] + decimal(label_in(names, edge.1))
}

/// The records of a graph: one per node in the order of the labels, the separator `#`, then
/// one per edge in the order of `edges`.
pub open spec fn records(names: Seq<Seq<char>>, edges: Seq<Edge>) -> Seq<Seq<char>> {
    Seq::new(names.len(), |i: int| node_record(names, i)) + seq![seq!['#']] + Seq::new(
        edges.len(),
        |i: int| edge_record(names, edges[i]),
    )
}

/// Records as text: each record is followed by a line feed.
pub open spec fn lines_text(records: Seq<Seq<char>>) -> Seq<char>
    decreases records.len(),
{
    if records.len() == 0 {
        Seq::empty()
    } else {
        lines_text(records.drop_last()) + records.last() + seq!['\n']
    }
}

/// The text of the graph of `edges`, which are written in the order given.
pub open spec fn tgf_text(edges: Seq<Edge>) -> Seq<char> {
    lines_text(records(node_list(edges), edges))
}

/// Writes the graph of `edges` as text: one line per node with its label and its name, in
/// the order of the labels; a line that holds `#`; one line per edge with the labels of its
/// caller and of its callee, in the order of `edges`. The names that the edges mention are
/// the nodes, labelled from one in strictly increasing order of the names.
pub fn get_tgf(edges: &Vec<(String, String)>) -> (out: String)
    ensures
        out@ == tgf_text(edge_views(edges@)),
{
    let labels = NodeLabels::from_edges(edges);
    let ghost all = edge_views(edges@);
    let ghost names = labels@;
    let ghost recs = records(names, all);
    let count: usize = labels.len();
    let mut out = String::new();
    let mut label: usize = 0;
    while label < count
        invariant
            label <= count,
            count == names.len(),
            names == labels@,
            recs == records(names, all),
            out@ == lines_text(recs.take(label as int)),
        decreases count - label,
    {
        label += 1;
        push_decimal(&mut out, label);
        out.push(' ');
        match labels.name(label) {
            Some(name) => {
                out.append(name.as_str());
            },
            None => {},
        }
        out.push('\n');
        proof {
            assert(recs.take(label as int).drop_last() =~= recs.take(label - 1));
        }
    }
    out.push('#');
    out.push('\n');
    proof {
        assert(recs.take(count + 1).drop_last() =~= recs.take(count as int));
    }
    let mut i: usize = 0;
    while i < edges.len()
        invariant
            i <= edges.len(),
            count == names.len(),
            names == labels@,
            all == edge_views(edges@),
            recs == records(names, all),
            out@ == lines_text(recs.take(count + 1 + i)),
        decreases edges.len() - i,
    {
        let from = labels.label_of(&edges[i].0);
        let to = labels.label_of(&edges[i].1);
        push_decimal(&mut out, from);
        out.push(' ');
        push_decimal(&mut out, to);
        out.push('\n');
        proof {
            assert(recs.take(count + 1 + i + 1).drop_last() =~= recs.take(count + 1 + i));
        }
        i += 1;
    }
    assert(recs.take(count + 1 + i) =~= recs);
    out
}

/// The node labels are 1, 2, 3 and so on, one for each name that the edges mention. The
/// node lines come first in the text: the line at place `i` holds the label `i + 1` and the
/// name that has this label. No name has two labels, every name that the edges mention has
/// one, between 1 and the number of nodes, and no other name has one.
pub proof fn lemma_labels_cover_names(edges: Seq<Edge>)
    ensures
        ({
            let names = node_list(edges);
            let lines = records(names, edges);
            &&& names.no_duplicates()
            &&& forall|name: Seq<char>| #[trigger] names.contains(name) <==> mentions(edges, name)
            &&& forall|i: int|
                0 <= i < names.len() ==> {
                    &&& label_in(names, #[trigger] names[i]) == i + 1
                    &&& lines[i] == decimal((i + 1) as nat) + seq![' '] + names[i]
                }
            &&& forall|name: Seq<char>|
                mentions(edges, name) ==> 1 <= #[trigger] label_in(names, name) <= names.len()
            &&& forall|name: Seq<char>|
                !mentions(edges, name) ==> #[trigger] label_in(names, name) == 0
        }),
{
    let names = node_list(edges);
    lemma_node_list(edges);
    assert forall|i: int, j: int| 0 <= i < names.len() && 0 <= j < names.len() && i != j implies names[i]
        != names[j] by {
        lemma_str_lt_irreflexive(names[i]);
    }
    assert forall|i: int| 0 <= i < names.len() implies label_in(names, #[trigger] names[i]) == i
        + 1 by {
        assert(names.contains(names[i]));
    }
}

/// The node lines are sorted by name: the line at place `i` is the record of the name at
/// place `i` of the node list, and each name of the list comes strictly before the names
/// behind it.
pub proof fn lemma_node_lines_sorted(edges: Seq<Edge>)
    ensures
        ({
            let names = node_list(edges);
            let lines = records(names, edges);
            &&& forall|i: int| 0 <= i < names.len() ==> #[trigger] lines[i] == node_record(names, i)
            &&& forall|i: int, j: int| 0 <= i < j < names.len() ==> str_lt(names[i], names[j])
        }),
{
    lemma_node_list(edges);
}

/// The edge lines are sorted by the names of caller and callee, not by their labels. The
/// text of sorted edges holds, behind the node lines and the separator, one line per edge
/// in the order of the sorted edges; these are the edges that were sorted, each as often as
/// before, and none of them stands before a smaller one.
pub proof fn lemma_edge_lines_sorted(edges: Seq<Edge>)
    ensures
        ({
            let sorted = sorted_edges(edges);
            let names = node_list(sorted);
            let lines = records(names, sorted);
            &&& sorted.to_multiset() == edges.to_multiset()
            &&& sorted.len() == edges.len()
            &&& lines.len() == names.len() + 1 + sorted.len()
            &&& lines[names.len() as int] == seq!['#']
            &&& forall|i: int|
                0 <= i < sorted.len() ==> #[trigger] lines[names.len() + 1 + i] == edge_record(
                    names,
                    sorted[i],
                )
            &&& forall|i: int, j: int| 0 <= i < j < sorted.len() ==> edge_le(sorted[i], sorted[j])
        }),
{
    lemma_sorted_edges(edges);
    let sorted = sorted_edges(edges);
    assert forall|i: int, j: int| 0 <= i < j < sorted.len() implies edge_le(
        sorted[i],
        sorted[j],
    ) by {
        assert(edge_order()(sorted[i], sorted[j]));
    }
}

/// Sorting changes no node: sorted edges mention the names that the edges mention, so they
/// have the same node list and the same labels.
pub proof fn lemma_sorting_keeps_nodes(edges: Seq<Edge>)
    ensures
        node_list(sorted_edges(edges)) == node_list(edges),
{
    let sorted = sorted_edges(edges);
    lemma_sorted_edges(edges);
    lemma_node_list(sorted);
    edges.to_multiset_ensures();
    sorted.to_multiset_ensures();
    assert forall|name: Seq<char>| mentions(sorted, name) <==> mentions(edges, name) by {
        if mentions(sorted, name) {
            let i = choose|i: int| 0 <= i < sorted.len() && touches(#[trigger] sorted[i], name);
            assert(sorted.to_multiset().count(sorted[i]) > 0);
            assert(edges.contains(sorted[i]));
        }
        if mentions(edges, name) {
            let i = choose|i: int| 0 <= i < edges.len() && touches(#[trigger] edges[i], name);
            assert(edges.to_multiset().count(edges[i]) > 0);
            assert(sorted.contains(edges[i]));
        }
    }
    lemma_node_list_unique(node_list(sorted), edges);
}

} // verus!
