use semanticgrep::limit::{apply_max_count, sort_indices_by_key};
use semanticgrep::matcher::{SearchMatch, SearchMode, Similarity};

fn scored(line_number: usize, rank: Option<u64>) -> SearchMatch {
    SearchMatch {
        line_number,
        line: format!("line {}", line_number),
        column: 1,
        similarity: rank.map(|r| Similarity { rank: r, text: format!("{}", r) }),
    }
}

fn semantic() -> SearchMode {
    SearchMode::Semantic { query: "q".into(), threshold_bits: 0 }
}

fn regex() -> SearchMode {
    SearchMode::Regex { pattern: "x".into(), case_insensitive: false, word_regexp: false, fixed_strings: false }
}

fn numbers(v: &[SearchMatch]) -> Vec<usize> {
    v.iter().map(|m| m.line_number).collect()
}

#[test]
fn no_limit_keeps_everything() {
    let r = vec![scored(3, Some(1)), scored(1, Some(5))];
    assert_eq!(numbers(&apply_max_count(r, &semantic(), None)), vec![3, 1]);
}

#[test]
fn regex_limit_keeps_first() {
    let r = vec![scored(1, None), scored(4, None), scored(9, None)];
    assert_eq!(numbers(&apply_max_count(r, &regex(), Some(2))), vec![1, 4]);
    let r = vec![scored(1, None)];
    assert_eq!(numbers(&apply_max_count(r, &regex(), Some(5))), vec![1]);
}

#[test]
fn semantic_limit_keeps_best_in_line_order() {
    let r = vec![scored(1, Some(10)), scored(2, Some(50)), scored(3, Some(30)), scored(4, Some(50)), scored(5, Some(40))];
    // best: 2 and 4 (50), then 5 (40)
    assert_eq!(numbers(&apply_max_count(r, &semantic(), Some(3))), vec![2, 4, 5]);
}

#[test]
fn semantic_limit_ties_keep_input_order() {
    let r = vec![scored(7, Some(1)), scored(3, Some(1)), scored(5, Some(1))];
    assert_eq!(numbers(&apply_max_count(r, &semantic(), Some(2))), vec![3, 7]);
    let r = vec![scored(2, None), scored(1, Some(0))];
    assert_eq!(numbers(&apply_max_count(r, &semantic(), Some(1))), vec![1]);
    let r = vec![scored(2, Some(3))];
    assert!(apply_max_count(r, &semantic(), Some(0)).is_empty());
}

#[test]
fn sort_indices_is_stable() {
    assert_eq!(sort_indices_by_key(&vec![3, 1, 2, 1]), vec![1, 3, 2, 0]);
    assert!(sort_indices_by_key(&vec![]).is_empty());
}
