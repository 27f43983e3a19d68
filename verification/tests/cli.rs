use semanticgrep::cli::Cli;
use semanticgrep::matcher::SearchMode;
use semanticgrep::printer::ColorWhen;

/// The options as parsed from `semanticgrep pattern` with no flags.
fn base() -> Cli {
    Cli {
        pattern: "pattern".into(),
        paths: vec![".".into()],
        semantic_threshold_bits: None,
        model: "minishlab/potion-code-16M".into(),
        fixed_strings: false,
        ignore_case: false,
        word_regexp: false,
        invert_match: false,
        line_number: false,
        no_line_number: false,
        count: false,
        files_with_matches: false,
        after_context: 0,
        before_context: 0,
        context: 0,
        glob: vec![],
        file_type: vec![],
        type_not: vec![],
        type_list: false,
        with_filename: false,
        no_filename: false,
        color: "auto".into(),
        threads: None,
        only_matching: false,
        help: false,
        version: false,
    }
}

#[test]
fn test_show_line_numbers_default() {
    let cli = base();
    assert!(cli.show_line_numbers());
}

#[test]
fn test_show_line_numbers_suppressed() {
    let cli = Cli { no_line_number: true, ..base() };
    assert!(!cli.show_line_numbers());
}

#[test]
fn test_show_line_numbers_count() {
    let cli = Cli { count: true, ..base() };
    assert!(!cli.show_line_numbers());
}

#[test]
fn test_show_line_numbers_explicit_n() {
    let cli = Cli { line_number: true, ..base() };
    assert!(cli.show_line_numbers());
}

#[test]
fn line_number_with_count_and_suppression() {
    assert!(Cli { line_number: true, count: true, ..base() }.show_line_numbers());
    assert!(!Cli { line_number: true, no_line_number: true, ..base() }.show_line_numbers());
}

#[test]
fn test_show_filenames_single_path() {
    let cli = Cli { paths: vec!["/tmp".into()], ..base() };
    assert!(!cli.show_filenames());
}

#[test]
fn test_show_filenames_multiple_paths() {
    let cli = Cli { paths: vec!["/tmp".into(), "/var".into()], ..base() };
    assert!(cli.show_filenames());
}

#[test]
fn test_show_filenames_with_filename_flag() {
    let cli = Cli { with_filename: true, ..base() };
    assert!(cli.show_filenames());
}

#[test]
fn test_show_filenames_default_path() {
    let cli = base();
    assert!(cli.show_filenames());
}

#[test]
fn test_show_filenames_no_filename_flag() {
    let cli = Cli { no_filename: true, ..base() };
    assert!(!cli.show_filenames());
}

#[test]
fn show_filenames_edge_cases() {
    assert!(Cli { paths: vec![], ..base() }.show_filenames());
    assert!(!Cli { paths: vec!["./".into()], ..base() }.show_filenames());
    assert!(!Cli { paths: vec!["a".into(), "b".into()], no_filename: true, with_filename: true, ..base() }.show_filenames());
}

#[test]
fn test_color_auto() {
    let cli = base();
    assert!(matches!(cli.should_use_color(), ColorWhen::Auto));
}

#[test]
fn test_color_always() {
    let cli = Cli { color: "always".into(), ..base() };
    assert!(matches!(cli.should_use_color(), ColorWhen::Always));
}

#[test]
fn test_color_never() {
    let cli = Cli { color: "never".into(), ..base() };
    assert!(matches!(cli.should_use_color(), ColorWhen::Never));
}

#[test]
fn color_other_words_mean_auto() {
    assert_eq!(Cli { color: "Always".into(), ..base() }.should_use_color(), ColorWhen::Auto);
    assert_eq!(Cli { color: "".into(), ..base() }.should_use_color(), ColorWhen::Auto);
    assert_eq!(Cli { color: "nevers".into(), ..base() }.should_use_color(), ColorWhen::Auto);
}

#[test]
fn search_mode_follows_threshold() {
    let regex = Cli { ignore_case: true, fixed_strings: true, ..base() }.search_mode();
    match regex {
        SearchMode::Regex { pattern, case_insensitive, word_regexp, fixed_strings } => {
            assert_eq!(pattern, "pattern");
            assert!(case_insensitive && !word_regexp && fixed_strings);
        }
        SearchMode::Semantic { .. } => panic!("expected a regex search"),
    }
    let bits = 0.75f64.to_bits();
    match (Cli { semantic_threshold_bits: Some(bits), ..base() }).search_mode() {
        SearchMode::Semantic { query, threshold_bits } => {
            assert_eq!(query, "pattern");
            assert_eq!(f64::from_bits(threshold_bits), 0.75);
        }
        SearchMode::Regex { .. } => panic!("expected a similarity search"),
    }
}

#[test]
fn search_config_context_precedence() {
    let c = Cli { context: 3, after_context: 5, before_context: 2, ..base() }.search_config();
    assert_eq!((c.context, c.after_context, c.before_context), (3, 0, 0));
    let c = Cli { after_context: 5, before_context: 2, ..base() }.search_config();
    assert_eq!((c.context, c.after_context, c.before_context), (0, 5, 2));
}

#[test]
fn search_config_copies_flags() {
    let cli = Cli {
        count: true,
        invert_match: true,
        glob: vec!["*.rs".into(), "*.toml".into()],
        file_type: vec!["rust".into()],
        type_not: vec!["markdown".into()],
        color: "never".into(),
        paths: vec!["src/".into()],
        ..base()
    };
    let c = cli.search_config();
    assert!(c.count_mode && c.invert_match && !c.files_with_matches_mode);
    assert!(!c.show_line_number);
    assert!(!c.show_filename);
    assert_eq!(c.color_when, ColorWhen::Never);
    assert_eq!(c.globs, vec!["*.rs", "*.toml"]);
    assert_eq!(c.file_types, vec!["rust"]);
    assert_eq!(c.type_not, vec!["markdown"]);
    assert!(c.max_count.is_none());
}
