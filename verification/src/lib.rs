//! A call graph of a script, read line by line with two regular expressions and written in
//! the trivial graph format.
//!
//! [`scanner`] reads the lines: it keeps a stack of the functions whose definitions enclose
//! the current line and records an edge from the innermost one to every function that the
//! line calls. [`sorting`] orders the edges by caller and callee, [`nodes`] labels the names
//! they mention, and [`graph`] writes nodes and edges as text. [`call_graph`] does all of
//! this for the lines of one script.
//!
//! The two regular expressions are matched by the `regex` crate: [`pattern`] holds what the
//! library assumes of it, and [`text`] what it assumes of two functions of the standard
//! library. Everything else is proved.

pub mod decimal;
pub mod graph;
pub mod nodes;
pub mod order;
pub mod pattern;
pub mod scanner;
pub mod sorting;
pub mod text;

pub use crate::graph::get_tgf;

use crate::decimal::{decimal, push_decimal};
use crate::graph::tgf_text;
use crate::order::texts;
use crate::scanner::{
    initial, lemma_blank_line_ignored, lemma_blank_lines_ignored, refused_pattern, scan_lines,
    scanned_edges, without_blank, PatternError,
};
use crate::sorting::{sort_edges, sorted_edges};
use crate::text::is_blank;
use vstd::prelude::*;

verus! {

/// The text of the call graph of a script, given by its lines: the edges that a scan of the
/// lines records, sorted, and written with the names they mention as nodes.
pub open spec fn graph_text(lines: Seq<Seq<char>>) -> Seq<char> {
    tgf_text(sorted_edges(scanned_edges(lines)))
}

/// What a run on `lines` owes: the text of their call graph, or, where the `regex` crate
/// refuses one of the scanner's patterns, the first pattern refused.
pub open spec fn is_call_graph_of(lines: Seq<Seq<char>>, r: Result<String, PatternError>) -> bool {
    match r {
        Ok(text) => refused_pattern() is None && text@ == graph_text(lines),
        Err(e) => refused_pattern() == Some(e),
    }
}

/// The report of the count mode for a text of `n` lines.
pub open spec fn count_text(n: nat) -> Seq<char> {
    "count: "@ + decimal(n) + seq!['\n']
}

/// Two runs on the same lines end alike: with the same text, byte for byte, or with the
/// same error.
pub proof fn lemma_runs_agree(
    lines: Seq<Seq<char>>,
    first: Result<String, PatternError>,
    second: Result<String, PatternError>,
)
    requires
        is_call_graph_of(lines, first),
        is_call_graph_of(lines, second),
    ensures
        first is Ok <==> second is Ok,
        first is Ok ==> first->Ok_0@ == second->Ok_0@,
        first is Err ==> first->Err_0 == second->Err_0,
{
}

/// Blank lines do not change the graph: a text with one more blank line, at any place, has
/// the same graph text.
pub proof fn lemma_blank_line_keeps_graph(lines: Seq<Seq<char>>, at: int, blank_line: Seq<char>)
    requires
        0 <= at <= lines.len(),
        is_blank(blank_line),
    ensures
        scanned_edges(lines.insert(at, blank_line)) == scanned_edges(lines),
        graph_text(lines.insert(at, blank_line)) == graph_text(lines),
{
    lemma_blank_line_ignored(initial(), lines, at, blank_line);
}

/// Blank lines do not change the graph: two texts that are the same without their blank
/// lines have the same graph text.
pub proof fn lemma_blank_lines_keep_graph(first: Seq<Seq<char>>, second: Seq<Seq<char>>)
    requires
        without_blank(first) == without_blank(second),
    ensures
        scanned_edges(first) == scanned_edges(second),
        graph_text(first) == graph_text(second),
{
    lemma_blank_lines_ignored(initial(), first);
    lemma_blank_lines_ignored(initial(), second);
}

/// Scans the lines of a script and writes its call graph.
pub fn call_graph(lines: &Vec<String>) -> (r: Result<String, PatternError>)
    ensures
        is_call_graph_of(texts(lines@), r),
{
    match scan_lines(lines) {
        Ok(edges) => {
            let sorted = sort_edges(edges);
            Ok(get_tgf(&sorted))
        },
        Err(e) => Err(e),
    }
}

/// Reports the number of lines of a text, blank ones included.
pub fn count_report(line_count: usize) -> (out: String)
    ensures
        out@ == count_text(line_count as nat),
{
    let mut out = "count: ".to_owned();
    push_decimal(&mut out, line_count);
    out.push('\n');
    out
}

} // verus!
