use semanticgrep::text::{char_is_white_space, line_is_blank, split_lines, string_from_chars, usize_to_decimal};

#[test]
fn decimal_rendering_matches_format() {
    for n in [0usize, 7, 10, 99, 100, 1234567890, usize::MAX].iter() {
        assert_eq!(usize_to_decimal(*n), format!("{}", n));
    }
}

#[test]
fn whitespace_agrees_with_std() {
    for u in 0u32..0x3100 {
        if let Some(c) = char::from_u32(u) {
            assert_eq!(char_is_white_space(c), c.is_whitespace(), "at {:#x}", u);
        }
    }
    assert!(!char_is_white_space('\u{feff}'));
    assert!(!char_is_white_space('\u{200b}'));
}

#[test]
fn blank_lines_are_those_that_trim_to_nothing() {
    for s in ["", " ", "\t \u{a0}", "\u{3000}", "x", " x ", "\u{200b}"].iter() {
        assert_eq!(line_is_blank(s), s.trim().is_empty(), "on {:?}", s);
    }
}

#[test]
fn split_lines_examples() {
    assert_eq!(split_lines("a\nb"), vec!["a", "b"]);
    assert_eq!(split_lines("a\r\nb\r\n"), vec!["a", "b"]);
    assert_eq!(split_lines("\n\n"), vec!["", ""]);
    assert!(split_lines("").is_empty());
    assert_eq!(split_lines("only\r"), vec!["only\r"]);
}

#[test]
fn lines_round_trip_for_terminated_text() {
    let text = "one\ntwo\n\nfour\n";
    let joined: String = split_lines(text).iter().map(|l| format!("{}\n", l)).collect();
    assert_eq!(joined, text);
}

#[test]
fn string_from_chars_takes_a_prefix() {
    let cs: Vec<char> = "h\u{e9}llo".chars().collect();
    assert_eq!(string_from_chars(&cs, 2), "h\u{e9}");
    assert_eq!(string_from_chars(&cs, 0), "");
}
