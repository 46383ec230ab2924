//! Lines of text as sequences of characters: blank lines, prefixes, substrings.

use vstd::prelude::*;
use vstd::std_specs::iter::IteratorSpec;

verus! {

/// Whether `c` has the Unicode property `White_Space`, as `char::is_whitespace` reports it.
pub uninterp spec fn char_is_whitespace(c: char) -> bool;

/// Taken on trust of `char::is_whitespace`: its answer depends on the character alone.
pub assume_specification[ char::is_whitespace ](c: char) -> (b: bool)
    ensures
        b == char_is_whitespace(c),
;

/// Taken on trust of `String::push`: it appends the character at the end of the string and
/// leaves what was there as it was.
pub assume_specification[ String::push ](s: &mut String, c: char)
    ensures
        final(s)@ == old(s)@.push(c),
;

/// A line is blank when it holds nothing but whitespace; the empty line is blank.
pub open spec fn is_blank(line: Seq<char>) -> bool {
    forall|i: int| 0 <= i < line.len() ==> char_is_whitespace(#[trigger] line[i])
}

/// `pattern` occurs in `text` starting at position `at`.
pub open spec fn occurs_at(text: Seq<char>, pattern: Seq<char>, at: int) -> bool {
    &&& 0 <= at
    &&& at + pattern.len() <= text.len()
    &&& forall|j: int| 0 <= j < pattern.len() ==> text[at + j] == #[trigger] pattern[j]
}

/// `pattern` occurs somewhere in `text`. The empty pattern occurs in every text.
pub open spec fn has_substring(text: Seq<char>, pattern: Seq<char>) -> bool {
    exists|at: int| occurs_at(text, pattern, at)
}

/// Tells whether a line is blank.
pub fn blank(line: &str) -> (b: bool)
    ensures
        b == is_blank(line@),
{
    let mut all_white: bool = true;
    for c in it: line.chars()
        invariant
            it.seq() == line@,
            all_white == (forall|i: int|
                0 <= i < it.index() ==> char_is_whitespace(#[trigger] line@[i])),
    {
        if !c.is_whitespace() {
            all_white = false;
        }
    }
    all_white
}

/// The characters of a string, one by one.
pub fn chars_of(text: &str) -> (chars: Vec<char>)
    ensures
        chars@ == text@,
{
    let mut chars: Vec<char> = Vec::new();
    let mut it = text.chars();
    loop
        invariant
            chars@ + it.remaining() == text@,
            it.decrease() is Some,
        ensures
            it.remaining().len() == 0,
        decreases it.decrease()->0,
    {
        match it.next() {
            Some(c) => {
                chars.push(c);
            },
            None => {
                break ;
            },
        }
    }
    chars
}

/// Tells whether `text` begins with `prefix`.
pub fn starts_with(text: &str, prefix: &str) -> (b: bool)
    ensures
        b == prefix@.is_prefix_of(text@),
{
    let mut rest = text.chars();
    let mut wanted = prefix.chars();
    let ghost mut k: int = 0;
    loop
        invariant
            0 <= k <= text@.len(),
            k <= prefix@.len(),
            rest.remaining() == text@.skip(k),
            wanted.remaining() == prefix@.skip(k),
            text@.take(k) == prefix@.take(k),
            rest.decrease() is Some,
            wanted.decrease() is Some,
        decreases wanted.decrease()->0,
    {
        match wanted.next() {
            None => {
                return true;
            },
            Some(p) => {
                match rest.next() {
                    None => {
                        return false;
                    },
                    Some(c) => {
                        if c != p {
                            return false;
                        }
                    },
                }
            },
        }
        proof {
            k = k + 1;
        }
    }
}

/// Tells whether `pattern` occurs in `text` at position `at`.
fn matches_at(text: &Vec<char>, pattern: &Vec<char>, at: usize) -> (b: bool)
    requires
        at + pattern.len() <= text.len(),
    ensures
        b == occurs_at(text@, pattern@, at as int),
{
    let mut j: usize = 0;
    while j < pattern.len()
        invariant
            j <= pattern.len(),
            at + pattern.len() <= text.len(),
            forall|i: int| 0 <= i < j ==> text@[at + i] == #[trigger] pattern@[i],
        decreases pattern.len() - j,
    {
        if text[at + j] != pattern[j] {
            return false;
        }
        j += 1;
    }
    true
}

/// Tells whether `pattern` occurs anywhere in `text`.
pub fn contains(text: &str, pattern: &str) -> (b: bool)
    ensures
        b == has_substring(text@, pattern@),
{
    let text_chars = chars_of(text);
    let pattern_chars = chars_of(pattern);
    if pattern_chars.len() > text_chars.len() {
        return false;
    }
    let last: usize = text_chars.len() - pattern_chars.len();
    let mut at: usize = 0;
    while at <= last
        invariant
            text_chars@ == text@,
            pattern_chars@ == pattern@,
            last + pattern_chars.len() == text_chars.len(),
            at <= last + 1,
            forall|i: int| 0 <= i < at ==> !occurs_at(text@, pattern@, i),
        decreases last + 1 - at,
    {
        if matches_at(&text_chars, &pattern_chars, at) {
            return true;
        }
        at += 1;
    }
    false
}

} // verus!
