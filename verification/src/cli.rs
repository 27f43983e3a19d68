//! The command-line options and what they mean for a search.

use vstd::prelude::*;
use crate::printer::ColorWhen;
use crate::matcher::SearchMode;
use crate::search::SearchConfig;
use crate::run::{effective_before, effective_after};

verus! {

/// The command-line options. `semantic_threshold_bits` is the IEEE-754 bit
/// pattern of the `-s` threshold when one was given.
pub struct Cli {
    pub pattern: String,
    pub paths: Vec<String>,
    pub semantic_threshold_bits: Option<u64>,
    pub model: String,
    pub fixed_strings: bool,
    pub ignore_case: bool,
    pub word_regexp: bool,
    pub invert_match: bool,
    pub line_number: bool,
    pub no_line_number: bool,
    pub count: bool,
    pub files_with_matches: bool,
    pub after_context: usize,
    pub before_context: usize,
    pub context: usize,
    pub glob: Vec<String>,
    pub file_type: Vec<String>,
    pub type_not: Vec<String>,
    pub type_list: bool,
    pub with_filename: bool,
    pub no_filename: bool,
    pub color: String,
    pub threads: Option<usize>,
    pub only_matching: bool,
    pub help: bool,
    pub version: bool,
}

/// Line numbers are shown unless `-N`, and by default not in count mode (`-n`
/// shows them there).
pub open spec fn shows_line_numbers(cli: Cli) -> bool {
    !cli.no_line_number && (cli.line_number || !cli.count)
}

/// File names are shown unless `-h`; with `-H`, with several paths, or when the
/// first path is `.` (or no path was given).
pub open spec fn shows_filenames(cli: Cli) -> bool {
    let default_path = cli.paths@.len() == 0 || cli.paths@[0]@ == seq!['.'];
    !cli.no_filename && (cli.with_filename || cli.paths@.len() > 1 || default_path)
}

/// The color setting named by `--color`: `always`, `never`, anything else auto.
pub open spec fn color_choice(color: Seq<char>) -> ColorWhen {
    if color == seq!['a', 'l', 'w', 'a', 'y', 's'] {
        ColorWhen::Always
    } else if color == seq!['n', 'e', 'v', 'e', 'r'] {
        ColorWhen::Never
    } else {
        ColorWhen::Auto
    }
}

/// Whether two strings have the same characters.
fn same_text(a: &str, b: &str) -> (res: bool)
    ensures
        res == (a@ == b@),
{
    String::from_str(a) == String::from_str(b)
}

/// A copy of a list of strings.
pub fn copy_strings(v: &Vec<String>) -> (res: Vec<String>)
    ensures
        res@ == v@,
{
    let mut out: Vec<String> = Vec::new();
    for i in 0..v.len()
        invariant
            out@ == v@.take(i as int),
    {
        out.push(v[i].clone());
        assert(out@ =~= v@.take(i + 1));
    }
    assert(v@.take(v.len() as int) =~= v@);
    out
}

impl Cli {
    /// Whether line numbers are printed.
    pub fn show_line_numbers(&self) -> (res: bool)
        ensures
            res == shows_line_numbers(*self),
    {
        !self.no_line_number && (self.line_number || !self.count)
    }

    /// Whether file names are printed.
    pub fn show_filenames(&self) -> (res: bool)
        ensures
            res == shows_filenames(*self),
    {
        let default_path = if self.paths.len() == 0 {
            true
        } else {
            let d = same_text(self.paths[0].as_str(), ".");
            proof {
                reveal_strlit(".");
            }
            assert(seq!['.'] =~= "."@);
            d
        };
        if self.no_filename {
            return false;
        }
        self.with_filename || self.paths.len() > 1 || default_path
    }

    /// The color setting.
    pub fn should_use_color(&self) -> (res: ColorWhen)
        ensures
            res == color_choice(self.color@),
    {
        let always = same_text(self.color.as_str(), "always");
        let never = same_text(self.color.as_str(), "never");
        proof {
            reveal_strlit("always");
            reveal_strlit("never");
            assert(seq!['a', 'l', 'w', 'a', 'y', 's'] =~= "always"@);
            assert(seq!['n', 'e', 'v', 'e', 'r'] =~= "never"@);
        }
        if always {
            ColorWhen::Always
        } else if never {
            ColorWhen::Never
        } else {
            ColorWhen::Auto
        }
    }

    /// The search the options ask for: by similarity when `-s` was given, else
    /// by regex with `-i`, `-w`, `-F`.
    pub fn search_mode(&self) -> (res: SearchMode)
        ensures
            match self.semantic_threshold_bits {
                Some(bits) => res == (SearchMode::Semantic { query: self.pattern, threshold_bits: bits }),
                None => res == (SearchMode::Regex {
                    pattern: self.pattern,
                    case_insensitive: self.ignore_case,
                    word_regexp: self.word_regexp,
                    fixed_strings: self.fixed_strings,
                }),
            },
    {
        match self.semantic_threshold_bits {
            Some(bits) => SearchMode::Semantic { query: self.pattern.clone(), threshold_bits: bits },
            None => SearchMode::Regex {
                pattern: self.pattern.clone(),
                case_insensitive: self.ignore_case,
                word_regexp: self.word_regexp,
                fixed_strings: self.fixed_strings,
            },
        }
    }

    /// The settings of the search the options ask for. With `-C`, `-A` and `-B`
    /// are set aside; no maximum count is set.
    pub fn search_config(&self) -> (res: SearchConfig)
        ensures
            res.color_when == color_choice(self.color@),
            res.show_filename == shows_filenames(*self),
            res.show_line_number == shows_line_numbers(*self),
            res.count_mode == self.count,
            res.files_with_matches_mode == self.files_with_matches,
            res.invert_match == self.invert_match,
            res.after_context == (if self.context > 0 { 0 } else { self.after_context }),
            res.before_context == (if self.context > 0 { 0 } else { self.before_context }),
            res.context == self.context,
            res.globs@ == self.glob@,
            res.file_types@ == self.file_type@,
            res.type_not@ == self.type_not@,
            res.max_count is None,
    {
        SearchConfig {
            color_when: self.should_use_color(),
            show_filename: self.show_filenames(),
            show_line_number: self.show_line_numbers(),
            count_mode: self.count,
            files_with_matches_mode: self.files_with_matches,
            invert_match: self.invert_match,
            after_context: if self.context > 0 { 0 } else { self.after_context },
            before_context: if self.context > 0 { 0 } else { self.before_context },
            context: self.context,
            globs: copy_strings(&self.glob),
            file_types: copy_strings(&self.file_type),
            type_not: copy_strings(&self.type_not),
            max_count: None,
        }
    }
}

/// `-C N` (N > 0) gives N lines of context on both sides, whatever `-A`/`-B`
/// say; without it `-A` and `-B` apply.
pub proof fn law_context_precedence(cli: Cli, config: SearchConfig)
    requires
        config.context == cli.context,
        config.after_context == (if cli.context > 0 { 0 } else { cli.after_context }),
        config.before_context == (if cli.context > 0 { 0 } else { cli.before_context }),
    ensures
        effective_before(config) == (if cli.context > 0 { cli.context } else { cli.before_context }),
        effective_after(config) == (if cli.context > 0 { cli.context } else { cli.after_context }),
{
}

/// `-h` always hides file names; otherwise `-H` always shows them, and so do
/// several paths or a search of `.` (or of no path). A single other path
/// without `-H` hides them.
pub proof fn law_filename_flags(cli: Cli)
    ensures
        cli.no_filename ==> !shows_filenames(cli),
        !cli.no_filename && cli.with_filename ==> shows_filenames(cli),
        !cli.no_filename && cli.paths@.len() > 1 ==> shows_filenames(cli),
        !cli.no_filename && cli.paths@.len() == 0 ==> shows_filenames(cli),
        !cli.no_filename && cli.paths@.len() > 0 && cli.paths@[0]@ == seq!['.'] ==> shows_filenames(cli),
        !cli.with_filename && cli.paths@.len() == 1 && cli.paths@[0]@ != seq!['.'] ==> !shows_filenames(cli),
{
}

/// `-N` always hides line numbers; otherwise `-n` always shows them, and
/// without `-n` they are shown except in count mode.
pub proof fn law_line_number_flags(cli: Cli)
    ensures
        cli.no_line_number ==> !shows_line_numbers(cli),
        !cli.no_line_number && cli.line_number ==> shows_line_numbers(cli),
        !cli.no_line_number && !cli.line_number ==> (shows_line_numbers(cli) <==> !cli.count),
{
}

} // verus!
