use sectools::search::{search_lines, SearchEngine};

fn lines(v: &[&str]) -> Vec<String> {
    v.iter().map(|s| s.to_string()).collect()
}

#[test]
fn search_zero_context_is_plain_filter() {
    let input = lines(&["foo", "bar match", "baz", "match two"]);
    let (out, found) = search_lines(&input, "match".to_string(), true, 0, 0);
    assert_eq!(out, lines(&["bar match", "match two"]));
    assert!(found);
}

#[test]
fn search_case_insensitive_matches_other_case() {
    let input = lines(&["an error occurred"]);
    let (out, found) = search_lines(&input, "ERROR".to_string(), false, 0, 0);
    assert_eq!(out, lines(&["an error occurred"]));
    assert!(found);
}

#[test]
fn search_case_sensitive_rejects_other_case() {
    let input = lines(&["an error occurred"]);
    let (out, found) = search_lines(&input, "ERROR".to_string(), true, 0, 0);
    assert!(out.is_empty());
    assert!(!found);
}

#[test]
fn search_before_and_after_context_window() {
    let input = lines(&["a", "b", "MATCH", "c", "d", "e"]);
    let (out, found) = search_lines(&input, "MATCH".to_string(), false, 1, 2);
    assert_eq!(out, lines(&["b", "MATCH", "c", "d"]));
    assert!(found);
}

#[test]
fn search_match_inside_after_context_is_emitted_as_match() {
    let input = lines(&["x", "HIT", "HIT", "y"]);
    let (out, found) = search_lines(&input, "HIT".to_string(), false, 0, 1);
    assert_eq!(out, lines(&["HIT", "HIT", "y"]));
    assert!(found);
}

#[test]
fn search_overlapping_windows_do_not_stack() {
    let input = lines(&["AA 1", "x", "AA 2", "y", "z", "t1", "t2"]);
    let (out, found) = search_lines(&input, "AA".to_string(), true, 0, 3);
    // The second match re-arms the countdown instead of stacking it, so t2
    // stays outside the window and nothing is emitted twice.
    assert_eq!(out, lines(&["AA 1", "x", "AA 2", "y", "z", "t1"]));
    assert!(found);
}

#[test]
fn search_no_match_means_empty_output() {
    let input = lines(&[
        "l0", "l1", "l2", "l3", "l4", "l5", "l6", "l7", "l8", "l9",
    ]);
    let (out, found) = search_lines(&input, "needle".to_string(), false, 2, 3);
    assert!(out.is_empty());
    assert!(!found);
}

#[test]
fn search_rerun_is_byte_identical() {
    let input = lines(&["a", "hit 1", "b", "c", "hit 2", "d"]);
    let first = search_lines(&input, "hit".to_string(), false, 1, 1);
    let second = search_lines(&input, "hit".to_string(), false, 1, 1);
    assert_eq!(first, second);
}

#[test]
fn search_buffer_evicts_oldest_first() {
    let input = lines(&["1", "2", "3", "X hit"]);
    let (out, _) = search_lines(&input, "hit".to_string(), true, 2, 0);
    assert_eq!(out, lines(&["2", "3", "X hit"]));
}

#[test]
fn search_empty_pattern_matches_every_line() {
    let input = lines(&["a", "b"]);
    let (out, found) = search_lines(&input, "".to_string(), true, 0, 0);
    assert_eq!(out, lines(&["a", "b"]));
    assert!(found);
}

#[test]
fn search_engine_streams_line_by_line() {
    let mut engine = SearchEngine::new("MATCH".to_string(), false, 1, 2);
    assert!(engine.process_line("a".to_string()).is_empty());
    assert!(engine.process_line("b".to_string()).is_empty());
    assert_eq!(
        engine.process_line("MATCH".to_string()),
        lines(&["b", "MATCH"])
    );
    assert_eq!(engine.process_line("c".to_string()), lines(&["c"]));
    assert_eq!(engine.process_line("d".to_string()), lines(&["d"]));
    assert!(engine.process_line("e".to_string()).is_empty());
    assert!(engine.any_match());
}

#[test]
fn search_empty_input_yields_nothing() {
    let input: Vec<String> = Vec::new();
    let (out, found) = search_lines(&input, "x".to_string(), false, 3, 3);
    assert!(out.is_empty());
    assert!(!found);
}

#[test]
fn search_window_larger_than_input() {
    let input = lines(&["a", "hit", "b"]);
    let (out, found) = search_lines(&input, "hit".to_string(), true, 10, 10);
    assert_eq!(out, lines(&["a", "hit", "b"]));
    assert!(found);
}

#[test]
fn search_trailing_before_context_is_discarded() {
    let input = lines(&["hit", "a", "b", "c"]);
    let (out, found) = search_lines(&input, "hit".to_string(), true, 3, 0);
    // Lines buffered after the match serve no later match and are dropped.
    assert_eq!(out, lines(&["hit"]));
    assert!(found);
}
