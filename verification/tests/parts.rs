use lua_call_tgf::decimal::push_decimal;
use lua_call_tgf::nodes::NodeLabels;
use lua_call_tgf::sorting::sort_edges;
use lua_call_tgf::order::{edge_less, less};
use lua_call_tgf::scanner::{PatternError, Patterns, ScanState};
use lua_call_tgf::text::{blank, chars_of, contains, starts_with};

fn pair(caller: &str, callee: &str) -> (String, String) {
    (caller.to_owned(), callee.to_owned())
}

fn written(n: usize) -> String {
    let mut out = String::new();
    push_decimal(&mut out, n);
    out
}

#[test]
fn blank_lines_hold_only_whitespace() {
    assert!(blank(""));
    assert!(blank(" \t\r"));
    assert!(blank("\u{2003}\u{3000}"));
    assert!(!blank("  x "));
    assert!(!blank("_"));
}

#[test]
fn characters_come_out_in_order() {
    assert_eq!(chars_of("a\u{e9}\u{1f600}z"), vec!['a', '\u{e9}', '\u{1f600}', 'z']);
    assert_eq!(chars_of(""), Vec::<char>::new());
}

#[test]
fn prefixes() {
    assert!(starts_with("end", "end"));
    assert!(starts_with("endless", "end"));
    assert!(starts_with("anything", ""));
    assert!(!starts_with("en", "end"));
    assert!(!starts_with(" end", "end"));
    assert!(!starts_with("enD", "end"));
    assert!(!starts_with("", "end"));
}

#[test]
fn substrings() {
    assert!(contains("x --[[ y", "--[["));
    assert!(contains("--[[", "--[["));
    assert!(contains("---[[", "--[["));
    assert!(contains("abc", ""));
    assert!(contains("", ""));
    assert!(!contains("--[ [", "--[["));
    assert!(!contains("-[[", "--[["));
    assert!(!contains("]", "]]"));
    assert!(contains("a]]", "]]"));
}

#[test]
fn strings_compare_by_code_point() {
    assert!(less("a", "b"));
    assert!(!less("b", "a"));
    assert!(!less("a", "a"));
    assert!(less("", "a"));
    assert!(!less("", ""));
    assert!(less("ab", "abc"));
    assert!(!less("abc", "ab"));
    assert!(less("Z", "a"));
    assert!(less("<top level>", "a"));
    assert!(less("z", "\u{e9}"));
    assert!(less("\u{ffff}", "\u{10000}"));
    assert_eq!(less("\u{ffff}", "\u{10000}"), "\u{ffff}" < "\u{10000}");
}

#[test]
fn edges_compare_by_caller_then_callee() {
    assert!(edge_less(&pair("a", "z"), &pair("b", "a")));
    assert!(edge_less(&pair("a", "a"), &pair("a", "b")));
    assert!(!edge_less(&pair("a", "b"), &pair("a", "b")));
    assert!(!edge_less(&pair("b", "a"), &pair("a", "z")));
}

#[test]
fn numbers_in_decimal() {
    assert_eq!(written(0), "0");
    assert_eq!(written(7), "7");
    assert_eq!(written(10), "10");
    assert_eq!(written(4096), "4096");
    assert_eq!(written(usize::MAX), usize::MAX.to_string());
    assert_eq!(written(1234567890), "1234567890");
    let mut out = "n = ".to_owned();
    push_decimal(&mut out, 305);
    assert_eq!(out, "n = 305");
}

#[test]
fn sorting_keeps_every_edge() {
    let edges = vec![pair("b", "x"), pair("a", "y"), pair("b", "a"), pair("a", "y"), pair("", "q")];
    let sorted = sort_edges(edges.clone());
    let mut expected = edges;
    expected.sort();
    assert_eq!(sorted, expected);
    assert_eq!(sorted[0], pair("", "q"));
    assert_eq!(sort_edges(Vec::new()), Vec::new());
}

#[test]
fn sorting_agrees_with_the_order_of_strings() {
    let mut edges = Vec::new();
    let names = ["b", "a", "ab", "B", "_x", "\u{e9}", "z9", "", "a0"];
    for (i, caller) in names.iter().enumerate() {
        for callee in names.iter().skip(i % 3) {
            edges.push(pair(caller, callee));
        }
    }
    let mut expected = edges.clone();
    expected.sort();
    assert_eq!(sort_edges(edges), expected);
}

#[test]
fn labels_count_from_one_in_name_order() {
    let edges = vec![pair("m", "b"), pair("a", "m"), pair("b", "b")];
    let labels = NodeLabels::from_edges(&edges);
    assert_eq!(labels.len(), 3);
    assert_eq!(labels.name(0), None);
    assert_eq!(labels.name(1), Some(&"a".to_owned()));
    assert_eq!(labels.name(2), Some(&"b".to_owned()));
    assert_eq!(labels.name(3), Some(&"m".to_owned()));
    assert_eq!(labels.name(4), None);
    assert_eq!(labels.label_of(&"a".to_owned()), 1);
    assert_eq!(labels.label_of(&"b".to_owned()), 2);
    assert_eq!(labels.label_of(&"m".to_owned()), 3);
    assert_eq!(labels.label_of(&"absent".to_owned()), 0);
    assert_eq!(labels.label_of(&"".to_owned()), 0);
    assert_eq!(labels.label_of(&"zz".to_owned()), 0);
}

#[test]
fn no_edges_no_labels() {
    let labels = NodeLabels::from_edges(&Vec::new());
    assert_eq!(labels.len(), 0);
    assert_eq!(labels.label_of(&"a".to_owned()), 0);
}

#[test]
fn the_definition_pattern_finds_the_name() {
    let patterns = Patterns::compile().unwrap();
    assert_eq!(patterns.definition_in("function foo()"), Some("foo".to_owned()));
    assert_eq!(patterns.definition_in("function   _a1 (x)"), Some("_a1".to_owned()));
    assert_eq!(patterns.definition_in("function foo.bar()"), Some("foo".to_owned()));
    assert_eq!(patterns.definition_in(" function foo()"), None);
    assert_eq!(patterns.definition_in("function(x)"), None);
    assert_eq!(patterns.definition_in("function 1x()"), None);
    assert_eq!(patterns.definition_in("local function foo()"), None);
    assert_eq!(patterns.definition_in("functions()"), None);
}

#[test]
fn the_call_pattern_finds_every_call() {
    let patterns = Patterns::compile().unwrap();
    assert_eq!(patterns.calls_in("f(g(), h())"), vec!["f", "g", "h"]);
    assert_eq!(patterns.calls_in("a.b(c) d (e) 9x(1)"), vec!["b", "x"]);
    assert_eq!(patterns.calls_in("no calls here"), Vec::<String>::new());
    assert_eq!(patterns.calls_in("(f)"), Vec::<String>::new());
}

#[test]
fn a_new_scan_starts_at_top_level() {
    let state = ScanState::new();
    assert_eq!(state.depth(), 1);
    assert_eq!(state.current_function(), Some(&"<top level>".to_owned()));
    assert!(!state.in_comment());
    assert!(state.edges().is_empty());
}

#[test]
fn entering_and_scanning_by_hand() {
    let mut state = ScanState::new();
    state.enter_function("outer".to_owned());
    state.scan_body("  x = one() + two()", &vec!["one".to_owned(), "two".to_owned()]);
    assert_eq!(state.edges(), &vec![pair("outer", "one"), pair("outer", "two")]);
    assert_eq!(state.depth(), 2);
    state.scan_body("end --[[", &Vec::new());
    assert_eq!(state.depth(), 1);
    assert!(state.in_comment());
    state.scan_body("end", &vec!["late".to_owned()]);
    assert_eq!(state.depth(), 0);
    assert_eq!(state.current_function(), None);
    assert!(state.in_comment());
    state.scan_body("end ]]", &vec!["nobody".to_owned()]);
    assert_eq!(state.depth(), 0);
    assert!(!state.in_comment());
    assert_eq!(
        state.into_edges(),
        vec![pair("outer", "one"), pair("outer", "two"), pair("<top level>", "late")]
    );
}

#[test]
fn an_error_names_its_pattern() {
    assert_eq!(PatternError::Definition.pattern(), "^function +([A-Za-z_][A-Za-z0-9_]*)");
    assert_eq!(PatternError::Call.pattern(), "([A-Za-z_][A-Za-z0-9_]*)\\(");
    assert!(Patterns::compile().is_ok());
}
