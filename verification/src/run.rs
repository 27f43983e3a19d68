//! Printing the results of each file and the decisions of a whole search.

use vstd::prelude::*;
use vstd::utf8::valid_utf8;
use crate::matcher::{SearchMatch, MatchView, match_views};
use crate::printer::{colors_enabled, Printer, Styled, Style, styled_views, match_spec, separator_spec, filename_only_spec, count_spec};
use crate::search::{SearchConfig, read_lines_for_context, content_lines, context_from, in_context, in_window, law_context_shows_results};

verus! {

/// What is printed for a sequence of results, one after the other.
pub open spec fn matches_spec(p: Printer, ms: Seq<MatchView>) -> Seq<(Seq<char>, Style)>
    decreases ms.len(),
{
    if ms.len() == 0 {
        seq![]
    } else {
        match_spec(p, ms[0]) + matches_spec(p, ms.drop_first())
    }
}

proof fn lemma_matches_spec_push(p: Printer, ms: Seq<MatchView>, m: MatchView)
    ensures
        matches_spec(p, ms.push(m)) == matches_spec(p, ms) + match_spec(p, m),
    decreases ms.len(),
{
    if ms.len() == 0 {
        assert(ms.push(m).drop_first() =~= Seq::<MatchView>::empty());
        assert(matches_spec(p, ms.push(m)) =~= match_spec(p, m) + matches_spec(p, Seq::<MatchView>::empty()));
        assert(matches_spec(p, ms) + match_spec(p, m) =~= match_spec(p, m));
    } else {
        lemma_matches_spec_push(p, ms.drop_first(), m);
        assert(ms.push(m).drop_first() =~= ms.drop_first().push(m));
        assert(matches_spec(p, ms.push(m)) =~= match_spec(p, ms[0]) + matches_spec(p, ms.drop_first().push(m)));
    }
}

/// The pieces printed for each of `ms`, in order.
fn print_all(printer: &Printer, ms: &Vec<SearchMatch>) -> (res: Vec<Styled>)
    ensures
        styled_views(res@) == matches_spec(*printer, match_views(ms@)),
{
    let mut out: Vec<Styled> = Vec::new();
    for i in 0..ms.len()
        invariant
            styled_views(out@) == matches_spec(*printer, match_views(ms@).take(i as int)),
    {
        let mut segs = printer.print_match(&ms[i]);
        let ghost a = styled_views(out@);
        let ghost b = styled_views(segs@);
        out.append(&mut segs);
        assert(styled_views(out@) =~= a + b);
        proof {
            lemma_matches_spec_push(*printer, match_views(ms@).take(i as int), ms@[i as int]@);
            assert(match_views(ms@).take(i + 1) =~= match_views(ms@).take(i as int).push(ms@[i as int]@));
        }
    }
    assert(match_views(ms@).take(ms.len() as int) =~= match_views(ms@));
    out
}

/// The context output of a file, as `read_lines_for_context` gives it.
pub open spec fn context_spec(content: Seq<u8>, results: Seq<SearchMatch>, before: int, after: int) -> Option<Seq<MatchView>> {
    if !valid_utf8(content) || content_lines(content).len() == 0 {
        None
    } else {
        Some(context_from(content_lines(content), results, before, after, 1, 0))
    }
}

/// What `print_results` does: `res` is whether the file had results and the
/// pieces printed; `printer`/`groups` change from `p0`/`g0` to `p1`/`g1`.
pub open spec fn print_results_post(
    p0: Printer,
    p1: Printer,
    results: Seq<SearchMatch>,
    path: Seq<char>,
    content: Seq<u8>,
    show_filename: bool,
    g0: i32,
    g1: i32,
    config: SearchConfig,
    context_before: usize,
    context_after: usize,
    res: (bool, Seq<(Seq<char>, Style)>),
) -> bool {
    &&& res.0 == (results.len() > 0)
    &&& (results.len() == 0 || config.files_with_matches_mode || config.count_mode ==> p1 == p0 && g1 == g0)
    &&& (results.len() == 0 ==> res.1.len() == 0)
    &&& (results.len() > 0 && config.files_with_matches_mode ==> res.1 == filename_only_spec(path))
    &&& (results.len() > 0 && !config.files_with_matches_mode && config.count_mode
        ==> res.1 == count_spec(p0, results.len() as usize, path))
    &&& (results.len() > 0 && !config.files_with_matches_mode && !config.count_mode ==> {
        let sep = if show_filename && g0 > 0 { separator_spec(p0) } else { seq![] };
        let ctx = context_spec(content, results, context_before as int, context_after as int);
        let body = if (context_before > 0 || context_after > 0) && ctx is Some { ctx->0 } else { match_views(results) };
        &&& g1 == g0 + 1
        &&& p1.color == p0.color
        &&& p1.show_filename == p0.show_filename
        &&& p1.show_line_number == p0.show_line_number
        &&& p1.count_mode == p0.count_mode
        &&& p1.files_with_matches_mode == p0.files_with_matches_mode
        &&& (show_filename ==> (p1.filename matches Some(f) && f@ == path))
        &&& (!show_filename ==> p1.filename == p0.filename)
        &&& res.1 == sep + matches_spec(p1, body)
    })
}

/// What is printed for the results of one file (whose bytes are `content` and
/// whose name is `path`), and whether the file had results. A file without
/// results prints nothing; in file-list mode its name is printed, in count mode
/// its count; otherwise, after a separator when file names are shown and an
/// earlier file printed results, its lines, with context when asked for and
/// available. `total_file_groups` counts the files whose lines were printed.
pub fn print_results(
    printer: &mut Printer,
    results: &Vec<SearchMatch>,
    path: &str,
    content: &[u8],
    show_filename: bool,
    total_file_groups: &mut i32,
    config: &SearchConfig,
    context_before: usize,
    context_after: usize,
) -> (res: (bool, Vec<Styled>))
    requires
        results.len() > 0 && !config.files_with_matches_mode && !config.count_mode
            ==> *old(total_file_groups) < i32::MAX,
    ensures
        print_results_post(
            *old(printer), *final(printer), results@, path@, content@, show_filename,
            *old(total_file_groups), *final(total_file_groups), *config,
            context_before, context_after, (res.0, styled_views(res.1@)),
        ),
{
    if results.len() == 0 {
        return (false, Vec::new());
    }
    if config.files_with_matches_mode {
        return (true, printer.print_filename_only(path));
    }
    if config.count_mode {
        return (true, printer.print_count(results.len(), path));
    }
    let mut out: Vec<Styled> = Vec::new();
    if show_filename && *total_file_groups > 0 {
        out = printer.print_separator();
    }
    if show_filename {
        printer.set_filename(String::from_str(path));
    }
    let ghost sep = styled_views(out@);
    if context_before > 0 || context_after > 0 {
        if let Some(lines) = read_lines_for_context(content, results, context_before, context_after) {
            let mut segs = print_all(printer, &lines);
            let ghost b = styled_views(segs@);
            out.append(&mut segs);
            assert(styled_views(out@) =~= sep + b);
            *total_file_groups = *total_file_groups + 1;
            return (true, out);
        }
    }
    let mut segs = print_all(printer, results);
    let ghost b = styled_views(segs@);
    out.append(&mut segs);
    assert(styled_views(out@) =~= sep + b);
    *total_file_groups = *total_file_groups + 1;
    (true, out)
}

/// `globset::Glob`, a parsed glob.
#[verifier::external_type_specification]
#[verifier::external_body]
pub struct ExGlob(globset::Glob);

/// `globset::GlobSet`, globs compiled for matching.
#[verifier::external_type_specification]
#[verifier::external_body]
pub struct ExGlobSet(globset::GlobSet);

/// `globset::Error`, the error of a glob that does not parse or compile.
#[verifier::external_type_specification]
#[verifier::external_body]
pub struct ExGlobError(globset::Error);

/// Whether `globset::Glob::new` accepts `glob`.
pub uninterp spec fn glob_parses(glob: Seq<char>) -> bool;

/// Whether `globset::GlobSet::new` builds a matcher for the parsed `glob`
/// alone (its automaton stays within the crate's size limit).
pub uninterp spec fn glob_builds(glob: Seq<char>) -> bool;

/// Whether the matcher built for `glob` alone matches `path`.
pub uninterp spec fn glob_matches(glob: Seq<char>, path: Seq<char>) -> bool;

/// `globset::Glob::new`: `Ok` exactly when the glob parses.
#[verifier::external_body]
fn glob_new(glob: &str) -> (res: Result<globset::Glob, globset::Error>)
    ensures
        res is Ok <==> glob_parses(glob@),
{
    globset::Glob::new(glob)
}

/// A glob as written, with its parse.
struct ParsedGlob {
    text: String,
    glob: globset::Glob,
}

/// `globset::GlobSet::new` over the single glob of `p`, which was parsed from
/// `p.text`: `Ok` exactly when its matcher builds.
#[verifier::external_body]
fn glob_set_new(p: &ParsedGlob) -> (res: Result<globset::GlobSet, globset::Error>)
    ensures
        res is Ok <==> glob_builds(p.text@),
{
    globset::GlobSet::new(std::iter::once(&p.glob))
}

/// A glob with the matcher built from it.
pub struct CompiledGlob {
    glob: String,
    set: globset::GlobSet,
}

/// `globset::GlobSet::is_match` on the matcher of a compiled glob, which
/// `CompiledGlob::new` built from its `glob` alone.
#[verifier::external_body]
fn glob_is_match(c: &CompiledGlob, path: &str) -> (res: bool)
    ensures
        res == glob_matches(c.glob@, path@),
{
    c.set.is_match(path)
}

impl CompiledGlob {
    /// The glob this matcher was built from.
    pub closed spec fn glob(&self) -> Seq<char> {
        self.glob@
    }

    /// Parses `glob` and builds its matcher; `None` when it does not parse or
    /// its matcher does not build.
    pub fn new(glob: &str) -> (res: Option<CompiledGlob>)
        ensures
            res is Some <==> glob_parses(glob@) && glob_builds(glob@),
            res matches Some(c) ==> c.glob() == glob@,
    {
        let parsed = match glob_new(glob) {
            Ok(g) => ParsedGlob { text: String::from_str(glob), glob: g },
            Err(_) => return None,
        };
        match glob_set_new(&parsed) {
            Ok(set) => Some(CompiledGlob { glob: parsed.text, set }),
            Err(_) => None,
        }
    }

    /// Whether `path` matches.
    pub fn is_match(&self, path: &str) -> (res: bool)
        ensures
            res == glob_matches(self.glob(), path@),
    {
        glob_is_match(self, path)
    }
}

/// Whether some glob of `globs` parses, builds and matches `path`.
pub open spec fn some_glob_matches(globs: Seq<String>, path: Seq<char>) -> bool {
    exists|i: int| 0 <= i < globs.len() && glob_parses(globs[i]@) && glob_builds(globs[i]@)
        && #[trigger] glob_matches(globs[i]@, path)
}

/// Whether some glob of `globs` matches `path`; globs that do not parse, or
/// whose matcher does not build, match nothing.
pub fn glob_selects(globs: &Vec<String>, path: &str) -> (res: bool)
    ensures
        res == some_glob_matches(globs@, path@),
{
    for i in 0..globs.len()
        invariant
            forall|j: int| 0 <= j < i ==> !(glob_parses(globs@[j]@) && glob_builds(globs@[j]@)
                && #[trigger] glob_matches(globs@[j]@, path@)),
    {
        if let Some(c) = CompiledGlob::new(globs[i].as_str()) {
            if c.is_match(path) {
                return true;
            }
        }
    }
    false
}

/// The count of candidate files met while walking a directory, and of those
/// that passed the glob filter.
pub struct GlobTally {
    pub total_candidates: usize,
    pub matched_globs: usize,
}

impl GlobTally {
    /// No candidates yet.
    pub fn new() -> (res: GlobTally)
        ensures
            res.total_candidates == 0,
            res.matched_globs == 0,
    {
        GlobTally { total_candidates: 0, matched_globs: 0 }
    }

    /// Counts one candidate file and says whether it is searched: always when
    /// there are no globs, else when some glob matches its path.
    pub fn accepts(&mut self, globs: &Vec<String>, path: &str) -> (res: bool)
        requires
            old(self).total_candidates < usize::MAX,
            old(self).matched_globs < usize::MAX,
        ensures
            res == (globs.len() == 0 || some_glob_matches(globs@, path@)),
            final(self).total_candidates == old(self).total_candidates + 1,
            final(self).matched_globs == old(self).matched_globs + (if globs.len() > 0 && res { 1int } else { 0int }),
    {
        self.total_candidates = self.total_candidates + 1;
        if globs.len() > 0 {
            if !glob_selects(globs, path) {
                return false;
            }
            self.matched_globs = self.matched_globs + 1;
        }
        true
    }

    /// The warning given after a directory walk in which globs were given, there
    /// were candidates, and no candidate matched a glob.
    pub fn warning(&self, globs: &Vec<String>) -> (res: Option<String>)
        ensures
            res is Some <==> globs.len() > 0 && self.total_candidates > 0 && self.matched_globs == 0,
            res matches Some(w) ==> w@ == glob_warning_text(self.total_candidates),
    {
        if globs.len() > 0 && self.total_candidates > 0 && self.matched_globs == 0 {
            let mut w = String::from_str("warning: glob pattern(s) matched 0 of ");
            let n = crate::text::usize_to_decimal(self.total_candidates);
            w.append(n.as_str());
            w.append(" candidate files \u{2014} check your -g argument is a file-name glob, not a search pattern");
            Some(w)
        } else {
            None
        }
    }
}

/// The warning about globs that matched none of `total` candidates.
pub open spec fn glob_warning_text(total: usize) -> Seq<char> {
    "warning: glob pattern(s) matched 0 of "@ + crate::text::decimal(total as nat)
        + " candidate files \u{2014} check your -g argument is a file-name glob, not a search pattern"@
}

/// The state of a search over several paths.
pub struct SearchRun {
    pub printer: Printer,
    pub show_filename: bool,
    pub context_before: usize,
    pub context_after: usize,
    pub total_file_groups: i32,
    pub any_matches: bool,
}

/// The lines of context before each result: `-C` when given, else `-B`.
pub open spec fn effective_before(config: SearchConfig) -> usize {
    if config.context > 0 { config.context } else { config.before_context }
}

/// The lines of context after each result: `-C` when given, else `-A`.
pub open spec fn effective_after(config: SearchConfig) -> usize {
    if config.context > 0 { config.context } else { config.after_context }
}

impl SearchRun {
    /// The state before any file is searched.
    pub fn new(config: &SearchConfig, stdout_is_terminal: bool) -> (res: SearchRun)
        ensures
            res.printer.color == colors_enabled(config.color_when, stdout_is_terminal),
            res.printer.show_filename == config.show_filename,
            res.printer.show_line_number == config.show_line_number,
            res.printer.filename is None,
            res.printer.count_mode == config.count_mode,
            res.printer.files_with_matches_mode == config.files_with_matches_mode,
            res.show_filename == config.show_filename,
            res.context_before == effective_before(*config),
            res.context_after == effective_after(*config),
            res.total_file_groups == 0,
            !res.any_matches,
    {
        let printer = Printer::new(
            config.color_when,
            config.show_filename,
            config.show_line_number,
            config.count_mode,
            config.files_with_matches_mode,
            stdout_is_terminal,
        );
        let context_before = if config.context > 0 { config.context } else { config.before_context };
        let context_after = if config.context > 0 { config.context } else { config.after_context };
        SearchRun {
            printer,
            show_filename: config.show_filename,
            context_before,
            context_after,
            total_file_groups: 0,
            any_matches: false,
        }
    }

    /// Prints the (already limited) results of one file, and notes whether it
    /// had any.
    pub fn print_file(&mut self, path: &str, content: &[u8], results: &Vec<SearchMatch>, config: &SearchConfig) -> (res: Vec<Styled>)
        requires
            results.len() > 0 && !config.files_with_matches_mode && !config.count_mode
                ==> old(self).total_file_groups < i32::MAX,
        ensures
            final(self).any_matches == (old(self).any_matches || results.len() > 0),
            final(self).show_filename == old(self).show_filename,
            final(self).context_before == old(self).context_before,
            final(self).context_after == old(self).context_after,
            print_results_post(
                old(self).printer, final(self).printer, results@, path@, content@, old(self).show_filename,
                old(self).total_file_groups, final(self).total_file_groups, *config,
                old(self).context_before, old(self).context_after, (results.len() > 0, styled_views(res@)),
            ),
    {
        let (found, segs) = print_results(
            &mut self.printer,
            results,
            path,
            content,
            self.show_filename,
            &mut self.total_file_groups,
            config,
            self.context_before,
            self.context_after,
        );
        self.any_matches = self.any_matches || found;
        segs
    }

    /// The exit status that this state reports.
    pub open spec fn exit_status(self) -> i32 {
        if self.any_matches { 0i32 } else { 1i32 }
    }

    /// The exit status of the search: 0 when some file had results, else 1.
    pub fn exit_code(&self) -> (res: i32)
        ensures
            res == self.exit_status(),
    {
        if self.any_matches { 0 } else { 1 }
    }
}

proof fn lemma_any_matches_so_far(runs: Seq<SearchRun>, found: Seq<bool>, k: int)
    requires
        runs.len() == found.len() + 1,
        0 <= k <= found.len(),
        !runs[0].any_matches,
        forall|i: int| #![trigger runs[i]] 0 <= i < found.len()
            ==> runs[i + 1].any_matches == (runs[i].any_matches || found[i]),
    ensures
        runs[k].any_matches <==> exists|i: int| 0 <= i < k && found[i],
    decreases k,
{
    if k > 0 {
        lemma_any_matches_so_far(runs, found, k - 1);
        assert(runs[k].any_matches == (runs[k - 1].any_matches || found[k - 1]));
    }
}

/// The exit status over a whole search: `runs[0]` is the state that
/// `SearchRun::new` gives, and each `runs[i + 1]` what `print_file` leaves after
/// the `i`-th file, whose result list was non-empty when `found[i]`. The status
/// is 0 exactly when some file had results, and 1 otherwise, also when no file
/// was searched.
pub proof fn law_exit_status_over_run(runs: Seq<SearchRun>, found: Seq<bool>)
    requires
        runs.len() == found.len() + 1,
        !runs[0].any_matches,
        forall|i: int| #![trigger runs[i]] 0 <= i < found.len()
            ==> runs[i + 1].any_matches == (runs[i].any_matches || found[i]),
    ensures
        runs.last().exit_status() == 0 <==> exists|i: int| 0 <= i < found.len() && found[i],
        runs.last().exit_status() == 1 <==> forall|i: int| 0 <= i < found.len() ==> !found[i],
{
    lemma_any_matches_so_far(runs, found, found.len() as int);
}

/// Whether line `l` is at most `before` lines before or at most `after` lines
/// after line `ln`.
pub open spec fn near_line(ln: int, before: int, after: int, l: int) -> bool {
    ln - before <= l <= ln + after
}

/// With context asked for (`before` lines before and `after` lines after each
/// result, as `-B`/`-A`/`-C` give them), what is printed for a file with
/// results is, after the file separator, the lines of the file that are near
/// some result, each as the line it is, in order: every line near a result is
/// printed, and no line that is near none. So with trailing context only
/// (`before` 0) no line before a result is printed, and the `after` lines that
/// follow a result are.
pub proof fn law_printed_context_windows(
    p0: Printer,
    p1: Printer,
    results: Seq<SearchMatch>,
    path: Seq<char>,
    content: Seq<u8>,
    show_filename: bool,
    g0: i32,
    g1: i32,
    config: SearchConfig,
    before: usize,
    after: usize,
    res: (bool, Seq<(Seq<char>, Style)>),
)
    requires
        print_results_post(p0, p1, results, path, content, show_filename, g0, g1, config, before, after, res),
        results.len() > 0,
        !config.files_with_matches_mode,
        !config.count_mode,
        before > 0 || after > 0,
        valid_utf8(content),
        content_lines(content).len() > 0,
        content_lines(content).len() <= usize::MAX,
    ensures
        ({
            let lines = content_lines(content);
            let n = lines.len() as int;
            let shown = context_from(lines, results, before as int, after as int, 1, 0);
            &&& res.1 == (if show_filename && g0 > 0 { separator_spec(p0) } else { seq![] }) + matches_spec(p1, shown)
            &&& forall|t: int| 0 <= t < shown.len() && (#[trigger] shown[t]).line_number > 0 ==> {
                &&& shown[t].line_number <= n
                &&& shown[t].line == lines[shown[t].line_number - 1]
                &&& exists|i: int| 0 <= i < results.len()
                    && #[trigger] near_line(results[i].line_number as int, before as int, after as int, shown[t].line_number as int)
            }
            &&& forall|i: int, l: int| 0 <= i < results.len() && 1 <= l <= n
                && #[trigger] near_line(results[i].line_number as int, before as int, after as int, l)
                ==> exists|t: int| 0 <= t < shown.len() && shown[t].line_number == l
            &&& forall|t: int, u: int| 0 <= t < u < shown.len() && shown[t].line_number > 0 && shown[u].line_number > 0
                ==> shown[t].line_number < shown[u].line_number
        }),
{
    let lines = content_lines(content);
    let n = lines.len() as int;
    let b = before as int;
    let a = after as int;
    let shown = context_from(lines, results, b, a, 1, 0);
    law_context_shows_results(lines, results, before, after);
    assert forall|t: int| 0 <= t < shown.len() && (#[trigger] shown[t]).line_number > 0 implies {
        &&& shown[t].line_number <= n
        &&& shown[t].line == lines[shown[t].line_number - 1]
        &&& exists|i: int| 0 <= i < results.len()
            && #[trigger] near_line(results[i].line_number as int, b, a, shown[t].line_number as int)
    } by {
        let l = shown[t].line_number as int;
        assert(in_context(results, b, a, n, l));
        let i = choose|i: int| 0 <= i < results.len() && #[trigger] in_window(results[i].line_number as int, b, a, n, l);
        assert(near_line(results[i].line_number as int, b, a, l));
    }
    assert forall|i: int, l: int| 0 <= i < results.len() && 1 <= l <= n
        && #[trigger] near_line(results[i].line_number as int, b, a, l)
        implies exists|t: int| 0 <= t < shown.len() && shown[t].line_number == l by {
        assert(in_window(results[i].line_number as int, b, a, n, l));
        assert(in_context(results, b, a, n, l));
    }
}

} // verus!
