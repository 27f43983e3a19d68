use semanticgrep::matcher::SearchMatch;
use semanticgrep::printer::{ColorWhen, Printer, Styled};
use semanticgrep::run::{glob_selects, print_results, CompiledGlob, GlobTally, SearchRun};
use semanticgrep::search::SearchConfig;

fn plain(line_number: usize, line: &str) -> SearchMatch {
    SearchMatch { line_number, line: line.to_string(), column: 1, similarity: None }
}

fn text(segs: &[Styled]) -> String {
    segs.iter().map(|s| s.text.as_str()).collect()
}

#[test]
fn test_print_results_files_with_matches() {
    let mut printer = Printer::new(ColorWhen::Never, false, true, false, true, false);
    let results = vec![plain(1, "hello")];
    let mut groups = 0;
    let config = SearchConfig { files_with_matches_mode: true, ..Default::default() };
    let (ok, segs) = print_results(&mut printer, &results, "test.txt", b"hello\n", false, &mut groups, &config, 0, 0);
    assert!(ok);
    assert_eq!(text(&segs), "test.txt\n");
    assert_eq!(groups, 0);
}

#[test]
fn test_print_results_count_mode() {
    let mut printer = Printer::new(ColorWhen::Never, true, true, true, false, false);
    let results = vec![plain(1, "a"), plain(2, "b")];
    let mut groups = 0;
    let config = SearchConfig { count_mode: true, ..Default::default() };
    let (ok, segs) = print_results(&mut printer, &results, "test.txt", b"a\nb\n", true, &mut groups, &config, 0, 0);
    assert!(ok);
    assert_eq!(text(&segs), "test.txt:2\n");
}

#[test]
fn print_results_nothing_for_no_results() {
    let mut printer = Printer::new(ColorWhen::Never, true, true, false, false, false);
    let mut groups = 3;
    let (ok, segs) = print_results(&mut printer, &vec![], "a", b"x\n", true, &mut groups, &SearchConfig::default(), 0, 0);
    assert!(!ok);
    assert!(segs.is_empty());
    assert_eq!(groups, 3);
}

#[test]
fn print_results_separates_files_and_names_them() {
    let config = SearchConfig { show_filename: true, ..Default::default() };
    let mut run = SearchRun::new(&config, false);
    let first = run.print_file("a.txt", b"hello\n", &vec![plain(1, "hello")], &config);
    assert_eq!(text(&first), "a.txt:1:hello\n");
    let second = run.print_file("b.txt", b"x\nhello\n", &vec![plain(2, "hello")], &config);
    assert_eq!(text(&second), "--\nb.txt:2:hello\n");
    assert_eq!(run.total_file_groups, 2);
    assert_eq!(run.exit_code(), 0);
}

#[test]
fn print_results_with_context() {
    let config = SearchConfig { context: 1, ..Default::default() };
    let mut run = SearchRun::new(&config, false);
    assert_eq!((run.context_before, run.context_after), (1, 1));
    let segs = run.print_file("t", b"a\nb\nc\nd\ne\nf\ng\n", &vec![plain(2, "b"), plain(6, "f")], &config);
    assert_eq!(text(&segs), "1:a\n2:b\n3:c\n0:--\n5:e\n6:f\n7:g\n");
}

#[test]
fn exit_code_without_matches() {
    let config = SearchConfig::default();
    let mut run = SearchRun::new(&config, true);
    assert!(run.printer.color);
    assert_eq!(run.exit_code(), 1);
    assert!(run.print_file("a", b"x\n", &vec![], &config).is_empty());
    assert_eq!(run.exit_code(), 1);
}

#[test]
fn globs_filter_paths() {
    let globs = vec!["*.txt".to_string(), "[".to_string()];
    assert!(glob_selects(&globs, "dir/data.txt"));
    assert!(!glob_selects(&globs, "data.csv"));
    assert!(!glob_selects(&vec![], "data.txt"));
    assert!(CompiledGlob::new("[").is_none());
    assert!(CompiledGlob::new("*.rs").unwrap().is_match("src/lib.rs"));
}

#[test]
fn glob_tally_counts_and_warns() {
    let globs = vec!["*.txt".to_string()];
    let mut tally = GlobTally::new();
    assert!(!tally.accepts(&globs, "a.csv"));
    assert!(!tally.accepts(&globs, "b.md"));
    assert_eq!((tally.total_candidates, tally.matched_globs), (2, 0));
    let w = tally.warning(&globs).unwrap();
    assert_eq!(
        w,
        "warning: glob pattern(s) matched 0 of 2 candidate files \u{2014} check your -g argument is a file-name glob, not a search pattern"
    );
    assert!(tally.accepts(&globs, "c.txt"));
    assert!(tally.warning(&globs).is_none());
    let mut open = GlobTally::new();
    assert!(open.accepts(&vec![], "anything"));
    assert_eq!((open.total_candidates, open.matched_globs), (1, 0));
    assert!(open.warning(&vec![]).is_none());
}

#[test]
fn full_counter_is_no_limit_without_printed_lines() {
    let mut printer = Printer::new(ColorWhen::Never, true, true, false, false, false);
    let mut groups = i32::MAX;
    let (ok, segs) = print_results(&mut printer, &vec![], "a", b"x\n", true, &mut groups, &SearchConfig::default(), 0, 0);
    assert!(!ok && segs.is_empty());
    assert_eq!(groups, i32::MAX);
    assert!(printer.filename.is_none());

    let config = SearchConfig { files_with_matches_mode: true, ..Default::default() };
    let (ok, segs) = print_results(&mut printer, &vec![plain(1, "x")], "a.txt", b"x\n", true, &mut groups, &config, 0, 0);
    assert!(ok);
    assert_eq!(text(&segs), "a.txt\n");
    assert_eq!(groups, i32::MAX);

    let config = SearchConfig { count_mode: true, ..Default::default() };
    let (ok, segs) = print_results(&mut printer, &vec![plain(1, "x")], "a.txt", b"x\n", true, &mut groups, &config, 0, 0);
    assert!(ok);
    assert_eq!(text(&segs), "a.txt:1\n");
    assert_eq!(groups, i32::MAX);
}

#[test]
fn exit_status_over_a_run_reports_any_results() {
    let config = SearchConfig::default();
    let mut run = SearchRun::new(&config, false);
    assert_eq!(run.exit_code(), 1);
    run.print_file("a", b"x\n", &vec![], &config);
    assert_eq!(run.exit_code(), 1);
    run.print_file("b", b"y\n", &vec![plain(1, "y")], &config);
    assert_eq!(run.exit_code(), 0);
    run.print_file("c", b"z\n", &vec![], &config);
    assert_eq!(run.exit_code(), 0);
}
