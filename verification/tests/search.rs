use semanticgrep::matcher::{SearchMatch, SearchMode, Similarity};
use semanticgrep::search::{read_lines, read_lines_for_context, read_nonempty_lines, search_file, SearchConfig, SearchError};

fn plain(line_number: usize, line: &str) -> SearchMatch {
    SearchMatch { line_number, line: line.to_string(), column: 1, similarity: None }
}

fn regex_mode(pattern: &str, case_insensitive: bool, fixed_strings: bool) -> SearchMode {
    SearchMode::Regex { pattern: pattern.into(), case_insensitive, word_regexp: false, fixed_strings }
}

#[test]
fn test_read_lines_basic() {
    let lines = read_lines(b"line1\nline2\nline3\n").ok().unwrap();
    assert_eq!(lines, vec!["line1", "line2", "line3"]);
}

#[test]
fn test_read_lines_empty() {
    let lines = read_lines(b"").ok().unwrap();
    assert!(lines.is_empty());
}

#[test]
fn read_lines_agrees_with_str_lines() {
    let samples = ["a\r\nb\n\nc", "\n", "x\ry", "end\r", "tail\n\n", "caf\u{e9}\n\u{4e16}\u{754c}"];
    for s in samples.iter() {
        let ours = read_lines(s.as_bytes()).ok().unwrap();
        let std: Vec<String> = s.lines().map(|l| l.to_string()).collect();
        assert_eq!(ours, std, "on {:?}", s);
    }
}

#[test]
fn read_lines_rejects_invalid_utf8() {
    assert!(matches!(read_lines(&[0x66, 0xff, 0x0a]), Err(SearchError::NotUtf8)));
}

#[test]
fn read_nonempty_lines_skips_blank_lines() {
    let (kept, idx) = read_nonempty_lines("one\n   \n\ttwo\n\u{3000}\n\nthree".as_bytes()).ok().unwrap();
    assert_eq!(kept, vec!["one", "\ttwo", "three"]);
    assert_eq!(idx, vec![0, 2, 5]);
    assert!(read_nonempty_lines(&[0xc3]).is_err());
}

#[test]
fn test_read_lines_for_context_basic() {
    let results = vec![plain(3, "c")];
    let context = read_lines_for_context(b"a\nb\nc\nd\ne\n", &results, 1, 1).unwrap();
    assert_eq!(context.len(), 3);
    assert_eq!(context[0].line_number, 2);
    assert_eq!(context[0].line, "b");
    assert_eq!(context[1].line_number, 3);
    assert_eq!(context[1].line, "c");
    assert_eq!(context[2].line_number, 4);
    assert_eq!(context[2].line, "d");
}

#[test]
fn test_read_lines_for_context_with_separator() {
    let results = vec![plain(2, "b"), plain(6, "f")];
    let context = read_lines_for_context(b"a\nb\nc\nd\ne\nf\ng\n", &results, 1, 1).unwrap();
    assert!(context.len() > 3);
    let sep_count = context.iter().filter(|m| m.line_number == 0).count();
    assert_eq!(sep_count, 1);
}

#[test]
fn context_windows_clip_and_merge() {
    let results = vec![plain(1, "a"), plain(3, "c"), plain(7, "g")];
    let merged = read_lines_for_context(b"a\nb\nc\nd\ne\nf\ng\n", &results, 2, 1).unwrap();
    let numbers: Vec<usize> = merged.iter().map(|m| m.line_number).collect();
    assert_eq!(numbers, vec![1, 2, 3, 4, 5, 6, 7]);
    let context = read_lines_for_context(b"a\nb\nc\nd\ne\nf\ng\n", &results, 1, 0).unwrap();
    let numbers: Vec<usize> = context.iter().map(|m| m.line_number).collect();
    assert_eq!(numbers, vec![1, 2, 3, 0, 6, 7]);
    assert_eq!(context[3].line, "--");
    assert_eq!(context[3].column, 0);
    assert_eq!(context[4].line, "f");
}

#[test]
fn context_carries_scores_of_results() {
    let scored = SearchMatch {
        line_number: 2,
        line: "b".into(),
        column: 1,
        similarity: Some(Similarity { rank: 5, text: "0.5000".into() }),
    };
    let context = read_lines_for_context(b"a\nb\nc\n", &vec![scored], 1, 0).unwrap();
    assert_eq!(context.len(), 2);
    assert!(context[0].similarity.is_none());
    assert_eq!(context[1].similarity.as_ref().unwrap().text, "0.5000");
}

#[test]
fn context_none_without_lines_or_utf8() {
    let results = vec![plain(1, "x")];
    assert!(read_lines_for_context(b"", &results, 1, 1).is_none());
    assert!(read_lines_for_context(&[0xff], &results, 1, 1).is_none());
    assert!(read_lines_for_context(b"x\n", &vec![], 1, 1).unwrap().is_empty());
}

#[test]
fn test_search_file_regex_basic() {
    let mode = regex_mode("hello", false, false);
    let config = SearchConfig::default();
    let results = search_file(b"hello world\ngoodbye\nhello again\n", &mode, &config, &vec![]).ok().unwrap();
    assert_eq!(results.len(), 2);
    assert_eq!(results[0].line, "hello world");
    assert_eq!(results[1].line, "hello again");
}

#[test]
fn test_search_file_regex_invert() {
    let mode = regex_mode("hello", false, false);
    let config = SearchConfig { invert_match: true, ..Default::default() };
    let results = search_file(b"hello world\ngoodbye\nhello again\n", &mode, &config, &vec![]).ok().unwrap();
    assert_eq!(results.len(), 1);
    assert_eq!(results[0].line, "goodbye");
}

#[test]
fn test_search_file_regex_no_matches() {
    let mode = regex_mode("hello", false, false);
    let config = SearchConfig::default();
    let results = search_file(b"foo\nbar\nbaz\n", &mode, &config, &vec![]).ok().unwrap();
    assert!(results.is_empty());
}

#[test]
fn test_search_file_regex_fixed_strings() {
    let mode = regex_mode("foo.bar", false, true);
    let config = SearchConfig::default();
    let results = search_file(b"foo.bar\nfoobar\n", &mode, &config, &vec![]).ok().unwrap();
    assert_eq!(results.len(), 1);
    assert_eq!(results[0].line, "foo.bar");
}

#[test]
fn test_search_file_regex_case_insensitive() {
    let mode = regex_mode("hello", true, false);
    let config = SearchConfig::default();
    let results = search_file(b"Hello\nHELLO\nworld\n", &mode, &config, &vec![]).ok().unwrap();
    assert_eq!(results.len(), 2);
}

#[test]
fn search_file_errors() {
    let config = SearchConfig::default();
    let bad = regex_mode("(", false, false);
    assert!(matches!(search_file(b"x\n", &bad, &config, &vec![]), Err(SearchError::Pattern(_))));
    let good = regex_mode("x", false, false);
    assert!(matches!(search_file(&[0xff, 0x0a], &good, &config, &vec![]), Err(SearchError::NotUtf8)));
    // the pattern is checked before the content
    assert!(matches!(search_file(&[0xff], &bad, &config, &vec![]), Err(SearchError::Pattern(_))));
    let literal = regex_mode("(", false, true);
    assert_eq!(search_file(b"a(b\nab\n", &literal, &config, &vec![]).ok().unwrap().len(), 1);
}

#[test]
fn search_file_semantic_renumbers_results() {
    let mode = SearchMode::Semantic { query: "q".into(), threshold_bits: 0 };
    let config = SearchConfig::default();
    let content = b"alpha\n\n  \nbeta\ngamma\n";
    // results on the non-blank lines alpha, beta, gamma: the second and third
    let sem = vec![plain(2, "beta"), plain(3, "gamma")];
    let results = search_file(content, &mode, &config, &sem).ok().unwrap();
    let numbers: Vec<usize> = results.iter().map(|m| m.line_number).collect();
    assert_eq!(numbers, vec![4, 5]);
    assert_eq!(results[0].line, "beta");
    let inverted = search_file(content, &mode, &SearchConfig { invert_match: true, ..Default::default() }, &sem).ok().unwrap();
    let numbers: Vec<usize> = inverted.iter().map(|m| m.line_number).collect();
    assert_eq!(numbers, vec![1, 2, 3]);
    assert!(inverted.iter().all(|m| m.similarity.is_none()));
}

#[test]
fn search_file_semantic_blank_file_gives_nothing() {
    let mode = SearchMode::Semantic { query: "q".into(), threshold_bits: 0 };
    let config = SearchConfig::default();
    assert!(search_file(b"\n  \n", &mode, &config, &vec![]).ok().unwrap().is_empty());
    assert!(matches!(search_file(&[0xfe], &mode, &config, &vec![]), Err(SearchError::NotUtf8)));
}

#[test]
fn search_file_semantic_inverted_blank_file_gives_every_line() {
    let mode = SearchMode::Semantic { query: "q".into(), threshold_bits: 0 };
    let config = SearchConfig { invert_match: true, ..Default::default() };
    let out = search_file(b"\n  \n\t\n", &mode, &config, &vec![]).ok().unwrap();
    let expected = vec![plain(1, ""), plain(2, "  "), plain(3, "\t")];
    assert_eq!(out.len(), expected.len());
    for (got, want) in out.iter().zip(expected.iter()) {
        assert_eq!((got.line_number, &got.line, got.column), (want.line_number, &want.line, want.column));
        assert!(got.similarity.is_none());
    }
}

#[test]
fn default_config_values() {
    let c = SearchConfig::default();
    assert!(c.show_line_number);
    assert!(!c.show_filename && !c.count_mode && !c.files_with_matches_mode && !c.invert_match);
    assert_eq!((c.after_context, c.before_context, c.context), (0, 0, 0));
    assert!(c.globs.is_empty() && c.file_types.is_empty() && c.type_not.is_empty());
    assert!(c.max_count.is_none());
    assert_eq!(c.color_when, semanticgrep::printer::ColorWhen::Auto);
}

#[test]
fn context_separator_only_between_windows_that_do_not_touch() {
    let content = b"a\nb\nc\nd\ne\nf\ng\nh\n";
    // windows 1..=2 and 3..=4 touch: no separator
    let touching = read_lines_for_context(content, &vec![plain(1, "a"), plain(3, "c")], 0, 1).unwrap();
    let numbers: Vec<usize> = touching.iter().map(|m| m.line_number).collect();
    assert_eq!(numbers, vec![1, 2, 3, 4]);
    // windows 1..=2 and 4..=5 leave line 3 out: one separator between them
    let gap = read_lines_for_context(content, &vec![plain(1, "a"), plain(4, "d")], 0, 1).unwrap();
    let numbers: Vec<usize> = gap.iter().map(|m| m.line_number).collect();
    assert_eq!(numbers, vec![1, 2, 0, 4, 5]);
    let apart = read_lines_for_context(content, &vec![plain(2, "b"), plain(7, "g")], 1, 1).unwrap();
    let numbers: Vec<usize> = apart.iter().map(|m| m.line_number).collect();
    assert_eq!(numbers, vec![1, 2, 3, 0, 6, 7, 8]);
    assert_ne!(apart.first().unwrap().line_number, 0);
    assert_ne!(apart.last().unwrap().line_number, 0);
    let adjacent = read_lines_for_context(content, &vec![plain(2, "b"), plain(5, "e")], 1, 1).unwrap();
    let numbers: Vec<usize> = adjacent.iter().map(|m| m.line_number).collect();
    assert_eq!(numbers, vec![1, 2, 3, 4, 5, 6]);
}

#[test]
fn fixed_strings_escape_meta_characters() {
    let mode = SearchMode::Regex { pattern: "a.b(c)".into(), case_insensitive: false, word_regexp: false, fixed_strings: true };
    let out = search_file(b"axb(c)\na.b(c)\n", &mode, &SearchConfig::default(), &vec![]).ok().unwrap();
    assert_eq!(out.len(), 1);
    assert_eq!(out[0].line_number, 2);
    assert_eq!(out[0].column, 1);
}
