use semanticgrep::matcher::{match_regex_lines, match_semantic_lines, RegexMatcher, SearchMatch, Similarity};

fn strings(v: &[&str]) -> Vec<String> {
    v.iter().map(|s| s.to_string()).collect()
}

fn score(rank: u64, text: &str) -> Similarity {
    Similarity { rank, text: text.to_string() }
}

#[test]
fn test_regex_matcher_basic() {
    let m = RegexMatcher::new("hello", false, false).unwrap();
    assert!(m.is_match("hello world"));
    assert!(!m.is_match("world"));
}

#[test]
fn test_regex_matcher_case_insensitive() {
    let m = RegexMatcher::new("hello", true, false).unwrap();
    assert!(m.is_match("Hello World"));
    assert!(m.is_match("HELLO"));
}

#[test]
fn test_regex_matcher_word_regexp() {
    let m = RegexMatcher::new("hello", false, true).unwrap();
    assert!(m.is_match("hello world"));
    assert!(!m.is_match("helloworld"));
}

#[test]
fn test_regex_matcher_case_insensitive_word() {
    let m = RegexMatcher::new("hello", true, true).unwrap();
    assert!(m.is_match("Hello world"));
    assert!(!m.is_match("Helloworld"));
}

#[test]
fn test_regex_matcher_special_chars() {
    let m = RegexMatcher::new(r"\d+", false, false).unwrap();
    assert!(m.is_match("foo 123 bar"));
    assert!(!m.is_match("abc"));
}

#[test]
fn test_regex_matcher_empty_pattern_matches_everything() {
    let m = RegexMatcher::new("", false, false).unwrap();
    assert!(m.is_match("anything"));
    assert!(m.is_match(""));
}

#[test]
fn test_regex_matcher_invalid_regex() {
    let result = RegexMatcher::new(r"\[", false, false);
    assert!(result.is_ok());
}

#[test]
fn test_regex_matcher_completely_invalid() {
    let result = RegexMatcher::new(r"***", false, false);
    assert!(result.is_err());
}

#[test]
fn test_match_regex_lines_basic() {
    let lines: Vec<String> = vec!["hello world".into(), "goodbye".into(), "hello again".into()];
    let m = RegexMatcher::new("hello", false, false).unwrap();
    let results = match_regex_lines(&lines, &m, false);
    assert_eq!(results.len(), 2);
    assert_eq!(results[0].line_number, 1);
    assert_eq!(results[1].line_number, 3);
}

#[test]
fn test_match_regex_lines_invert() {
    let lines: Vec<String> = vec!["hello world".into(), "goodbye".into(), "hello again".into()];
    let m = RegexMatcher::new("hello", false, false).unwrap();
    let results = match_regex_lines(&lines, &m, true);
    assert_eq!(results.len(), 1);
    assert_eq!(results[0].line_number, 2);
    assert_eq!(results[0].line, "goodbye");
}

#[test]
fn test_match_regex_lines_no_matches() {
    let lines: Vec<String> = vec!["foo".into(), "bar".into()];
    let m = RegexMatcher::new("hello", false, false).unwrap();
    let results = match_regex_lines(&lines, &m, false);
    assert!(results.is_empty());
}

#[test]
fn test_match_regex_lines_empty_lines() {
    let lines: Vec<String> = vec!["".into(), "hello".into()];
    let m = RegexMatcher::new("hello", false, false).unwrap();
    let results = match_regex_lines(&lines, &m, false);
    assert_eq!(results.len(), 1);
}

#[test]
fn test_match_regex_lines_invert_no_matches() {
    let lines: Vec<String> = vec!["hello".into()];
    let m = RegexMatcher::new("hello", false, false).unwrap();
    let results = match_regex_lines(&lines, &m, true);
    assert!(results.is_empty());
}

#[test]
fn regex_column_is_first_match_start_plus_one() {
    let lines = strings(&["say hello", "nothing", "hello hello"]);
    let m = RegexMatcher::new("hello", false, false).unwrap();
    let results = match_regex_lines(&lines, &m, false);
    assert_eq!(results.len(), 2);
    assert_eq!(results[0].column, 5);
    assert_eq!(results[1].column, 1);
    let inverted = match_regex_lines(&lines, &m, true);
    assert_eq!(inverted.len(), 1);
    assert_eq!(inverted[0].column, 1);
    assert_eq!(inverted[0].line, "nothing");
}

#[test]
fn regex_invert_partitions_the_lines() {
    let lines = strings(&["a1", "b", "c22", "", "d3"]);
    let m = RegexMatcher::new(r"\d", false, false).unwrap();
    let plain = match_regex_lines(&lines, &m, false);
    let inverted = match_regex_lines(&lines, &m, true);
    assert_eq!(plain.len() + inverted.len(), lines.len());
    let mut numbers: Vec<usize> = plain.iter().chain(inverted.iter()).map(|r| r.line_number).collect();
    numbers.sort();
    assert_eq!(numbers, vec![1, 2, 3, 4, 5]);
}

#[test]
fn find_iter_gives_byte_ranges() {
    let m = RegexMatcher::new("ab", false, false).unwrap();
    assert_eq!(m.find_iter("xxabyab"), vec![(2, 4), (5, 7)]);
    assert!(m.find_iter("nothing").is_empty());
    let u = RegexMatcher::new("é", false, false).unwrap();
    assert_eq!(u.find_iter("café"), vec![(3, 5)]);
}

#[test]
fn word_and_case_flags_change_the_pattern() {
    let w = RegexMatcher::new("cat", false, true).unwrap();
    assert!(w.is_match("the cat sat"));
    assert!(!w.is_match("theater cats"));
    let ci = RegexMatcher::new("CAT", true, false).unwrap();
    assert!(ci.is_match("concatenate"));
    assert!(!RegexMatcher::new("CAT", false, false).unwrap().is_match("concatenate"));
}

#[test]
fn semantic_hits_become_results() {
    let lines = strings(&["apple", "banana", "carrot"]);
    let hits = vec![(0usize, score(0xBFEE_6666_6666_6666, "0.9500")), (2usize, score(0xBFE9_9999_9999_999A, "0.8000"))];
    let results = match_semantic_lines(&lines, &hits, false);
    assert_eq!(results.len(), 2);
    assert_eq!(results[0].line_number, 1);
    assert_eq!(results[0].line, "apple");
    assert_eq!(results[0].column, 1);
    assert_eq!(results[0].similarity.as_ref().unwrap().text, "0.9500");
    assert_eq!(results[1].line_number, 3);
    assert_eq!(results[1].line, "carrot");
}

#[test]
fn semantic_invert_gives_unhit_lines_with_zero_score() {
    let lines = strings(&["apple", "banana", "carrot"]);
    let hits = vec![(1usize, score(7, "0.9000"))];
    let results = match_semantic_lines(&lines, &hits, true);
    assert_eq!(results.len(), 2);
    assert_eq!(results[0].line, "apple");
    assert_eq!(results[1].line, "carrot");
    assert_eq!(results[1].line_number, 3);
    let zero = results[0].similarity.as_ref().unwrap();
    assert_eq!(zero.text, "0.0000");
    assert_eq!(zero.rank, 0x8000_0000_0000_0000);
}

#[test]
fn semantic_empty_input() {
    let lines: Vec<String> = vec![];
    let hits: Vec<(usize, Similarity)> = vec![];
    assert!(match_semantic_lines(&lines, &hits, false).is_empty());
    assert!(match_semantic_lines(&lines, &hits, true).is_empty());
}

#[test]
fn search_match_copy_keeps_fields() {
    let m = SearchMatch { line_number: 4, line: "x".into(), column: 2, similarity: Some(score(9, "0.1000")) };
    let c = m.copy();
    assert_eq!(c.line_number, 4);
    assert_eq!(c.line, "x");
    assert_eq!(c.column, 2);
    assert_eq!(c.similarity.unwrap().rank, 9);
}

#[test]
fn semantic_invert_partitions_the_lines() {
    let lines = strings(&["a", "b", "c", "d", "e"]);
    let hits = vec![(1usize, score(3, "0.7000")), (3usize, score(4, "0.6000"))];
    let plain = match_semantic_lines(&lines, &hits, false);
    let inverted = match_semantic_lines(&lines, &hits, true);
    let a: Vec<usize> = plain.iter().map(|r| r.line_number).collect();
    let b: Vec<usize> = inverted.iter().map(|r| r.line_number).collect();
    assert_eq!(a, vec![2, 4]);
    assert_eq!(b, vec![1, 3, 5]);
    assert!(plain.iter().chain(inverted.iter()).all(|r| r.column == 1 && r.line == lines[r.line_number - 1]));
}
