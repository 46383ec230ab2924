//! The line scanner: it follows function definitions with a stack of names and records an
//! edge for every call it sees.

use crate::order::{edge_views, texts, Edge};
use crate::pattern::{
    capture, captures_all, captures_view, regex_capture, regex_captures_all, regex_compiles,
    regex_pattern, text_view,
};
use crate::text::{blank, contains, has_substring, is_blank, starts_with};
use regex::Regex;
use vstd::prelude::*;

verus! {

/// The state of a scan as the contracts see it.
pub struct ScanView {
    /// The names of the functions that enclose the current line, innermost last.
    pub stack: Seq<Seq<char>>,
    /// The edges recorded so far, in the order in which they were met.
    pub edges: Seq<Edge>,
    /// Whether the scan is inside a block comment.
    pub in_comment: bool,
}

/// The caller of every call that no function definition encloses.
pub const TOP_LEVEL: &'static str = "<top level>";

/// The pattern of a line that opens a function definition; its group holds the name.
pub const DEFINITION_PATTERN: &'static str = "^function +([A-Za-z_][A-Za-z0-9_]*)";

/// The pattern of a call; its group holds the name of the function called.
pub const CALL_PATTERN: &'static str = "([A-Za-z_][A-Za-z0-9_]*)\\(";

/// What begins a line that closes a function.
pub const END_MARK: &'static str = "end";

/// What opens a block comment.
pub const COMMENT_OPEN: &'static str = "--[[";

/// What closes a block comment.
pub const COMMENT_CLOSE: &'static str = "]]";

/// The caller of every call that no function definition encloses.
pub open spec fn top_level() -> Seq<char> {
    TOP_LEVEL@
}

/// The pattern of a line that opens a function definition.
pub open spec fn definition_pattern() -> Seq<char> {
    DEFINITION_PATTERN@
}

/// The pattern of a call.
pub open spec fn call_pattern() -> Seq<char> {
    CALL_PATTERN@
}

/// The state before the first line: at top level, outside any comment, no edge yet.
pub open spec fn initial() -> ScanView {
    ScanView { stack: seq![top_level()], edges: Seq::empty(), in_comment: false }
}

/// The name that `line` defines, if it opens a function definition: what the group of the
/// definition pattern holds. A match in which the group took no part defines nothing.
pub open spec fn defined_name(line: Seq<char>) -> Option<Seq<char>> {
    match regex_capture(definition_pattern(), 1, line) {
        Some(Some(name)) => Some(name),
        _ => None,
    }
}

/// The captures that are there, in their order.
pub open spec fn present(found: Seq<Option<Seq<char>>>) -> Seq<Seq<char>>
    decreases found.len(),
{
    if found.len() == 0 {
        Seq::empty()
    } else {
        match found.last() {
            Some(name) => present(found.drop_last()).push(name),
            None => present(found.drop_last()),
        }
    }
}

/// The names of the functions that `line` calls, from left to right.
pub open spec fn called_names(line: Seq<char>) -> Seq<Seq<char>> {
    present(regex_captures_all(call_pattern(), 1, line))
}

/// The state after a line that opens the definition of `name`.
pub open spec fn entered(s: ScanView, name: Seq<char>) -> ScanView {
    ScanView { stack: s.stack.push(name), ..s }
}

/// One edge from `caller` to each of `callees`, in their order.
pub open spec fn calls_from(caller: Seq<char>, callees: Seq<Seq<char>>) -> Seq<Edge> {
    callees.map_values(|callee: Seq<char>| (caller, callee))
}

/// A line closes a function when it begins with the letters `end`, whatever follows them.
pub open spec fn ends_function(line: Seq<char>) -> bool {
    END_MARK@.is_prefix_of(line)
}

/// Whether the scan is inside a block comment after `line`: a line that holds `--[[` opens
/// one, and a line that holds `]]` closes the one that is open, be it opened on that line.
pub open spec fn comment_after(inside: bool, line: Seq<char>) -> bool {
    (inside || has_substring(line, COMMENT_OPEN@)) && !has_substring(line, COMMENT_CLOSE@)
}

/// The state after a line that opens no definition and calls `callees`: the calls are
/// charged to the innermost function, then the line may close that function, then it may
/// open or close a comment. With an empty stack no call is recorded and nothing is closed.
pub open spec fn after_body(s: ScanView, line: Seq<char>, callees: Seq<Seq<char>>) -> ScanView {
    ScanView {
        stack: if ends_function(line) && s.stack.len() > 0 {
            s.stack.drop_last()
        } else {
            s.stack
        },
        edges: if s.stack.len() > 0 {
            s.edges + calls_from(s.stack.last(), callees)
        } else {
            s.edges
        },
        in_comment: comment_after(s.in_comment, line),
    }
}

/// The state after one line. A blank line changes nothing. A line that opens a definition
/// only enters it: it is not searched for calls, closes nothing and touches no comment.
pub open spec fn after_line(s: ScanView, line: Seq<char>) -> ScanView {
    if is_blank(line) {
        s
    } else {
        match defined_name(line) {
            Some(name) => entered(s, name),
            None => after_body(s, line, called_names(line)),
        }
    }
}

/// The state after `lines`, scanned in order from `s`.
pub open spec fn scanned_from(s: ScanView, lines: Seq<Seq<char>>) -> ScanView
    decreases lines.len(),
{
    if lines.len() == 0 {
        s
    } else {
        after_line(scanned_from(s, lines.drop_last()), lines.last())
    }
}

/// The edges that a scan of `lines` records, in the order in which they are met.
pub open spec fn scanned_edges(lines: Seq<Seq<char>>) -> Seq<Edge> {
    scanned_from(initial(), lines).edges
}

/// The comment mode is followed and never used: of two states that differ in it alone, a
/// line makes two states that have the same stack and the same edges.
pub proof fn lemma_comment_mode_unused(s: ScanView, line: Seq<char>)
    ensures
        after_line(ScanView { in_comment: !s.in_comment, ..s }, line).stack == after_line(
            s,
            line,
        ).stack,
        after_line(ScanView { in_comment: !s.in_comment, ..s }, line).edges == after_line(
            s,
            line,
        ).edges,
{
}

/// `lines` without its blank lines.
pub open spec fn without_blank(lines: Seq<Seq<char>>) -> Seq<Seq<char>> {
    lines.filter(|line: Seq<char>| !is_blank(line))
}

/// A blank line is ignored wherever it stands: a text with one more blank line, at any
/// place, leaves the scan in the same state, with the same edges.
pub proof fn lemma_blank_line_ignored(
    s: ScanView,
    lines: Seq<Seq<char>>,
    at: int,
    blank_line: Seq<char>,
)
    requires
        0 <= at <= lines.len(),
        is_blank(blank_line),
    ensures
        scanned_from(s, lines.insert(at, blank_line)) == scanned_from(s, lines),
    decreases lines.len(),
{
    let longer = lines.insert(at, blank_line);
    if at == lines.len() {
        assert(longer.drop_last() =~= lines);
    } else {
        assert(longer.drop_last() =~= lines.drop_last().insert(at, blank_line));
        lemma_blank_line_ignored(s, lines.drop_last(), at, blank_line);
    }
}

/// Blank lines are ignored altogether: a text and the same text without its blank lines
/// leave the scan in the same state, with the same edges. So do any two texts that differ
/// in their blank lines only.
pub proof fn lemma_blank_lines_ignored(s: ScanView, lines: Seq<Seq<char>>)
    ensures
        scanned_from(s, lines) == scanned_from(s, without_blank(lines)),
    decreases lines.len(),
{
    reveal(Seq::filter);
    if lines.len() > 0 {
        lemma_blank_lines_ignored(s, lines.drop_last());
        if !is_blank(lines.last()) {
            let kept = without_blank(lines.drop_last());
            assert(kept.push(lines.last()).drop_last() =~= kept);
        }
    }
}

/// The function stack, the edges recorded so far and the comment mode of a scan.
pub struct ScanState {
    stack: Vec<String>,
    edges: Vec<(String, String)>,
    in_comment: bool,
}

impl View for ScanState {
    type V = ScanView;

    closed spec fn view(&self) -> ScanView {
        ScanView {
            stack: texts(self.stack@),
            edges: edge_views(self.edges@),
            in_comment: self.in_comment,
        }
    }
}

impl ScanState {
    /// The state before the first line.
    pub fn new() -> (s: ScanState)
        ensures
            s@ == initial(),
    {
        let mut stack: Vec<String> = Vec::new();
        stack.push(TOP_LEVEL.to_owned());
        let s = ScanState { stack, edges: Vec::new(), in_comment: false };
        assert(s@.stack =~= seq![top_level()]);
        assert(s@.edges =~= Seq::empty());
        s
    }

    /// Takes a line that opens the definition of `name`.
    pub fn enter_function(&mut self, name: String)
        ensures
            final(self)@ == entered(old(self)@, name@),
    {
        self.stack.push(name);
        assert(self@.stack =~= old(self)@.stack.push(name@));
    }

    /// Takes a line that opens no definition and calls `callees`, from left to right.
    pub fn scan_body(&mut self, line: &str, callees: &Vec<String>)
        ensures
            final(self)@ == after_body(old(self)@, line@, texts(callees@)),
    {
        let depth: usize = self.stack.len();
        if depth > 0 {
            let mut i: usize = 0;
            while i < callees.len()
                invariant
                    i <= callees.len(),
                    depth == self.stack.len(),
                    depth > 0,
                    self.stack == old(self).stack,
                    self.in_comment == old(self).in_comment,
                    edge_views(self.edges@) == old(self)@.edges + calls_from(
                        old(self)@.stack.last(),
                        texts(callees@).take(i as int),
                    ),
                decreases callees.len() - i,
            {
                let caller = self.stack[depth - 1].clone();
                let callee = callees[i].clone();
                let ghost before = edge_views(self.edges@);
                self.edges.push((caller, callee));
                i += 1;
                assert(edge_views(self.edges@) =~= before.push((caller@, callee@)));
            }
            assert(texts(callees@).take(i as int) == texts(callees@));
        }
        if starts_with(line, END_MARK) {
            self.stack.pop();
        }
        if !self.in_comment && contains(line, COMMENT_OPEN) {
            self.in_comment = true;
        }
        if self.in_comment && contains(line, COMMENT_CLOSE) {
            self.in_comment = false;
        }
        assert(self@.stack =~= after_body(old(self)@, line@, texts(callees@)).stack);
    }

    /// Takes the next line of the text, read with `patterns`.
    pub fn feed(&mut self, patterns: &Patterns, line: &str)
        ensures
            final(self)@ == after_line(old(self)@, line@),
    {
        if blank(line) {
            return ;
        }
        match patterns.definition_in(line) {
            Some(name) => {
                self.enter_function(name);
            },
            None => {
                let callees = patterns.calls_in(line);
                self.scan_body(line, &callees);
            },
        }
    }

    /// The number of function definitions that enclose the current line, the top level
    /// counted as one.
    pub fn depth(&self) -> (n: usize)
        ensures
            n == self@.stack.len(),
    {
        self.stack.len()
    }

    /// The innermost function that encloses the current line.
    pub fn current_function(&self) -> (top: Option<&String>)
        ensures
            match top {
                Some(name) => self@.stack.len() > 0 && name@ == self@.stack.last(),
                None => self@.stack.len() == 0,
            },
    {
        if self.stack.len() > 0 {
            Some(&self.stack[self.stack.len() - 1])
        } else {
            None
        }
    }

    /// Whether the scan is inside a block comment.
    pub fn in_comment(&self) -> (inside: bool)
        ensures
            inside == self@.in_comment,
    {
        self.in_comment
    }

    /// The edges recorded so far, in the order in which they were met.
    pub fn edges(&self) -> (edges: &Vec<(String, String)>)
        ensures
            edge_views(edges@) == self@.edges,
    {
        &self.edges
    }

    /// Ends the scan and hands out its edges, in the order in which they were met.
    pub fn into_edges(self) -> (edges: Vec<(String, String)>)
        ensures
            edge_views(edges@) == self@.edges,
    {
        self.edges
    }
}

/// Which of the scanner's two patterns the `regex` crate refused.
#[derive(Clone, Copy, Debug, PartialEq, Eq, Structural)]
pub enum PatternError {
    /// The pattern of a function definition.
    Definition,
    /// The pattern of a call.
    Call,
}

impl PatternError {
    /// The pattern that was refused.
    pub fn pattern(&self) -> (p: &'static str)
        ensures
            p@ == match *self {
                PatternError::Definition => definition_pattern(),
                PatternError::Call => call_pattern(),
            },
    {
        match self {
            PatternError::Definition => DEFINITION_PATTERN,
            PatternError::Call => CALL_PATTERN,
        }
    }
}

/// The first of the scanner's patterns that the `regex` crate refuses, if it refuses one.
pub open spec fn refused_pattern() -> Option<PatternError> {
    if !regex_compiles(definition_pattern()) {
        Some(PatternError::Definition)
    } else if !regex_compiles(call_pattern()) {
        Some(PatternError::Call)
    } else {
        None
    }
}

/// The scanner's two patterns, compiled.
pub struct Patterns {
    definition: Regex,
    call: Regex,
}

impl Patterns {
    #[verifier::type_invariant]
    spec fn patterns_kept(self) -> bool {
        &&& regex_pattern(self.definition) == Some(definition_pattern())
        &&& regex_pattern(self.call) == Some(call_pattern())
    }

    /// Compiles the two patterns. It fails only where the `regex` crate refuses one of
    /// them, and then names the first one refused.
    pub fn compile() -> (r: Result<Patterns, PatternError>)
        ensures
            match r {
                Ok(_) => refused_pattern() is None,
                Err(e) => refused_pattern() == Some(e),
            },
    {
        let definition = match Regex::new(DEFINITION_PATTERN) {
            Ok(re) => re,
            Err(_) => {
                return Err(PatternError::Definition);
            },
        };
        let call = match Regex::new(CALL_PATTERN) {
            Ok(re) => re,
            Err(_) => {
                return Err(PatternError::Call);
            },
        };
        Ok(Patterns { definition, call })
    }

    /// The name that `line` defines, if it opens a function definition.
    pub fn definition_in(&self, line: &str) -> (name: Option<String>)
        ensures
            text_view(name) == defined_name(line@),
    {
        proof {
            use_type_invariant(self);
        }
        match capture(&self.definition, 1, line) {
            Some(Some(name)) => Some(name),
            _ => None,
        }
    }

    /// The names of the functions that `line` calls, from left to right.
    pub fn calls_in(&self, line: &str) -> (names: Vec<String>)
        ensures
            texts(names@) == called_names(line@),
    {
        proof {
            use_type_invariant(self);
        }
        let found = captures_all(&self.call, 1, line);
        let mut names: Vec<String> = Vec::new();
        let mut i: usize = 0;
        while i < found.len()
            invariant
                i <= found.len(),
                texts(names@) == present(captures_view(found@).take(i as int)),
            decreases found.len() - i,
        {
            let ghost seen = captures_view(found@).take(i as int);
            match &found[i] {
                Some(name) => {
                    names.push(name.clone());
                },
                None => {},
            }
            i += 1;
            assert(captures_view(found@).take(i as int).drop_last() =~= seen);
        }
        assert(captures_view(found@).take(i as int) =~= captures_view(found@));
        names
    }
}

/// Scans `lines` in order and returns the edges in the order in which they were met. It
/// fails only where the `regex` crate refuses one of the scanner's patterns.
pub fn scan_lines(lines: &Vec<String>) -> (r: Result<Vec<(String, String)>, PatternError>)
    ensures
        match r {
            Ok(edges) => refused_pattern() is None && edge_views(edges@) == scanned_edges(
                texts(lines@),
            ),
            Err(e) => refused_pattern() == Some(e),
        },
{
    let patterns = match Patterns::compile() {
        Ok(patterns) => patterns,
        Err(e) => {
            return Err(e);
        },
    };
    let mut state = ScanState::new();
    let mut i: usize = 0;
    while i < lines.len()
        invariant
            i <= lines.len(),
            refused_pattern() is None,
            state@ == scanned_from(initial(), texts(lines@).take(i as int)),
        decreases lines.len() - i,
    {
        state.feed(&patterns, lines[i].as_str());
        i += 1;
        assert(texts(lines@).take(i as int).drop_last() =~= texts(lines@).take(i - 1));
    }
    assert(texts(lines@).take(i as int) =~= texts(lines@));
    Ok(state.into_edges())
}

} // verus!
