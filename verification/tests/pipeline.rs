use lua_call_tgf::scanner::{scan_lines, Patterns, ScanState};
use lua_call_tgf::{call_graph, count_report, get_tgf};

fn lines(text: &str) -> Vec<String> {
    text.lines().map(|l| l.to_owned()).collect()
}

fn edge(caller: &str, callee: &str) -> (String, String) {
    (caller.to_owned(), callee.to_owned())
}

#[test]
fn a_function_that_calls_another() {
    let input = lines("function foo()\n  bar()\nend");
    assert_eq!(scan_lines(&input), Ok(vec![edge("foo", "bar")]));
    assert_eq!(call_graph(&input), Ok("1 bar\n2 foo\n#\n2 1\n".to_owned()));
}

#[test]
fn count_mode_reports_the_number_of_lines() {
    let input = lines("a\n\nb\n  \nc");
    assert_eq!(input.len(), 5);
    assert_eq!(count_report(input.len()), "count: 5\n");
}

#[test]
fn calls_at_top_level_are_charged_to_the_top_level() {
    let input = lines("call_one() call_two()");
    assert_eq!(
        scan_lines(&input),
        Ok(vec![edge("<top level>", "call_one"), edge("<top level>", "call_two")])
    );
}

#[test]
fn a_line_that_begins_with_end_closes_the_function() {
    let patterns = Patterns::compile().unwrap();
    let mut state = ScanState::new();
    state.feed(&patterns, "function foo()");
    assert_eq!(state.depth(), 2);
    assert_eq!(state.current_function(), Some(&"foo".to_owned()));
    state.feed(&patterns, "endgame()");
    assert_eq!(state.depth(), 1);
    assert_eq!(state.current_function(), Some(&"<top level>".to_owned()));
    state.feed(&patterns, "bar()");
    assert_eq!(state.into_edges(), vec![edge("foo", "endgame"), edge("<top level>", "bar")]);
}

#[test]
fn a_definition_line_is_not_scanned_further() {
    let input = lines("function foo() end\nbar()\nbaz() --[[ note ]]");
    assert_eq!(scan_lines(&input), Ok(vec![edge("foo", "bar"), edge("foo", "baz")]));
}

#[test]
fn an_assignment_to_endless_closes_the_function() {
    let input = lines("function foo()\nendless = 5\nbar()");
    assert_eq!(scan_lines(&input), Ok(vec![edge("<top level>", "bar")]));
}

#[test]
fn an_indented_end_closes_nothing() {
    let input = lines("function foo()\n  end\nbar()");
    assert_eq!(scan_lines(&input), Ok(vec![edge("foo", "bar")]));
}

#[test]
fn nested_calls_are_met_from_left_to_right() {
    let input = lines("function main()\n  f(g(), h())\nend");
    assert_eq!(
        scan_lines(&input),
        Ok(vec![edge("main", "f"), edge("main", "g"), edge("main", "h")])
    );
}

#[test]
fn an_indented_definition_is_a_call() {
    let input = lines("  function inner()");
    assert_eq!(scan_lines(&input), Ok(vec![edge("<top level>", "inner")]));
}

#[test]
fn closing_more_than_was_opened_leaves_no_caller() {
    let input = lines("end\nlost()\nend\nfunction again()\nfound()");
    assert_eq!(scan_lines(&input), Ok(vec![edge("again", "found")]));
}

#[test]
fn comments_do_not_hide_calls() {
    let patterns = Patterns::compile().unwrap();
    let mut state = ScanState::new();
    state.feed(&patterns, "--[[ a comment");
    assert!(state.in_comment());
    state.feed(&patterns, "hidden()");
    assert!(state.in_comment());
    state.feed(&patterns, "]] shown()");
    assert!(!state.in_comment());
    state.feed(&patterns, "--[[ one line ]]");
    assert!(!state.in_comment());
    assert_eq!(
        state.into_edges(),
        vec![edge("<top level>", "hidden"), edge("<top level>", "shown")]
    );
}

#[test]
fn blank_lines_change_nothing() {
    let plain = lines("function foo()\n  bar()\nend\nbaz()");
    let padded = lines("\n  \nfunction foo()\n\t\n  bar()\n\nend\n \u{a0} \nbaz()\n\n");
    assert_eq!(scan_lines(&plain), scan_lines(&padded));
    assert_eq!(call_graph(&plain), call_graph(&padded));
    assert_eq!(call_graph(&plain), Ok("1 <top level>\n2 bar\n3 baz\n4 foo\n#\n1 3\n4 2\n".to_owned()));
}

#[test]
fn two_runs_give_the_same_text() {
    let input = lines("function b()\n  a()\n  c()\nend\nfunction a()\n  c()\n  b()\nend\nb()");
    let first = call_graph(&input);
    let second = call_graph(&input);
    assert_eq!(first, second);
    assert_eq!(
        first,
        Ok("1 <top level>\n2 a\n3 b\n4 c\n#\n1 3\n2 3\n2 4\n3 2\n3 4\n".to_owned())
    );
}

#[test]
fn an_empty_script_has_an_empty_graph() {
    let input: Vec<String> = Vec::new();
    assert_eq!(scan_lines(&input), Ok(Vec::new()));
    assert_eq!(call_graph(&input), Ok("#\n".to_owned()));
}

#[test]
fn edges_are_written_in_the_order_given() {
    let edges = vec![edge("b", "a"), edge("a", "b"), edge("b", "a")];
    assert_eq!(get_tgf(&edges), "1 a\n2 b\n#\n2 1\n1 2\n2 1\n");
}

#[test]
fn labels_follow_the_names_not_the_edges() {
    let edges = vec![edge("zeta", "alpha"), edge("zeta", "Beta"), edge("mid", "zeta")];
    assert_eq!(get_tgf(&edges), "1 Beta\n2 alpha\n3 mid\n4 zeta\n#\n4 2\n4 1\n3 4\n");
}

#[test]
fn labels_of_more_than_one_digit() {
    let mut edges = Vec::new();
    for i in 0..12 {
        edges.push(edge("m", &format!("n{:02}", i)));
    }
    let text = get_tgf(&edges);
    let got: Vec<&str> = text.lines().collect();
    assert_eq!(got.len(), 13 + 1 + 12);
    assert_eq!(got[0], "1 m");
    assert_eq!(got[9], "10 n08");
    assert_eq!(got[12], "13 n11");
    assert_eq!(got[13], "#");
    assert_eq!(got[14], "1 2");
    assert_eq!(got[25], "1 13");
}
