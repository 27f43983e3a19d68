//! Reading files into lines, searching one file, and the context around results.

use vstd::prelude::*;
use vstd::utf8::{valid_utf8, decode_utf8};
use crate::matcher::{
    SearchMatch, MatchView, SearchMode, Similarity, RegexMatcher, match_views, copy_similarity, score_view,
    regex_escape, regex_escaped, regex_compiles, full_pattern, match_regex_lines, regex_results,
    literal_selection, lemma_literal_selection, has_result_at,
};
use crate::printer::ColorWhen;
use crate::text::{spec_lines, split_lines, views, is_blank, line_is_blank};

verus! {

/// Why a file is skipped.
pub enum SearchError {
    /// The file's bytes are not UTF-8.
    NotUtf8,
    /// The regular expression does not compile.
    Pattern(regex::Error),
}

/// Reads `bytes` as UTF-8 with `std::str::from_utf8`: `Some` exactly when the
/// bytes are valid UTF-8, and then the decoded characters.
#[verifier::external_body]
fn utf8_str(bytes: &[u8]) -> (res: Option<&str>)
    ensures
        res is Some <==> valid_utf8(bytes@),
        res matches Some(s) ==> s@ == decode_utf8(bytes@),
{
    std::str::from_utf8(bytes).ok()
}

/// The lines of a file's content, when the content is UTF-8.
pub open spec fn content_lines(content: Seq<u8>) -> Seq<Seq<char>> {
    spec_lines(decode_utf8(content))
}

/// The lines of a file whose bytes are `content`.
pub fn read_lines(content: &[u8]) -> (res: Result<Vec<String>, SearchError>)
    ensures
        res is Ok <==> valid_utf8(content@),
        res matches Ok(lines) ==> views(lines@) == content_lines(content@),
        res is Ok ==> content_lines(content@).len() <= usize::MAX,
        res matches Err(e) ==> e is NotUtf8,
{
    match utf8_str(content) {
        Some(text) => {
            let lines = split_lines(text);
            assert(views(lines@).len() == lines.len());
            Ok(lines)
        },
        None => Err(SearchError::NotUtf8),
    }
}

/// The values of a sequence of indices, as integers.
pub open spec fn as_ints(s: Seq<usize>) -> Seq<int> {
    s.map_values(|i: usize| i as int)
}

/// The lines of a file that are not blank, with their 0-based positions.
pub fn read_nonempty_lines(content: &[u8]) -> (res: Result<(Vec<String>, Vec<usize>), SearchError>)
    ensures
        res is Ok <==> valid_utf8(content@),
        res matches Ok((kept, idx)) ==> {
            &&& as_ints(idx@) == nonblank_positions(content_lines(content@))
            &&& views(kept@) == idx@.map_values(|i: usize| content_lines(content@)[i as int])
            &&& content_lines(content@).len() <= usize::MAX
        },
        res matches Err(e) ==> e is NotUtf8,
{
    let lines = read_lines(content)?;
    let ghost all = views(lines@);
    let mut kept: Vec<String> = Vec::new();
    let mut indices: Vec<usize> = Vec::new();
    for i in 0..lines.len()
        invariant
            all == views(lines@),
            all.len() == lines.len(),
            as_ints(indices@) + nonblank_positions_from(all, i as int) == nonblank_positions(all),
            views(kept@) == indices@.map_values(|j: usize| all[j as int]),
    {
        assert(all[i as int] == lines@[i as int]@);
        let ghost old_idx = indices@;
        let ghost old_kept = views(kept@);
        if !line_is_blank(lines[i].as_str()) {
            kept.push(lines[i].clone());
            indices.push(i);
            assert(views(kept@) =~= old_kept.push(all[i as int]));
            assert(indices@ =~= old_idx.push(i));
            assert(as_ints(indices@) =~= as_ints(old_idx).push(i as int));
            assert(indices@.map_values(|j: usize| all[j as int]) =~= old_idx.map_values(|j: usize| all[j as int]).push(all[i as int]));
        }
    }
    Ok((kept, indices))
}

/// The first line of the window around match line `ln` with `before` lines of
/// leading context.
pub open spec fn window_start(ln: int, before: int) -> int {
    if ln > before { ln - before } else { 1 }
}

/// The last line of the window around match line `ln` with `after` lines of
/// trailing context, in a file of `n` lines.
pub open spec fn window_end(ln: int, after: int, n: int) -> int {
    if ln + after < n { ln + after } else { n }
}

/// Whether line `l` lies in the window around match line `ln`.
pub open spec fn in_window(ln: int, before: int, after: int, n: int, l: int) -> bool {
    window_start(ln, before) <= l <= window_end(ln, after, n)
}

/// Whether line `l` lies in the window around some result.
pub open spec fn in_context(results: Seq<SearchMatch>, before: int, after: int, n: int, l: int) -> bool {
    exists|i: int| 0 <= i < results.len()
        && #[trigger] in_window(results[i].line_number as int, before, after, n, l)
}

/// The index of the first result at or after `k` whose line number is `l`.
pub open spec fn first_at(results: Seq<SearchMatch>, l: int, k: nat) -> Option<nat>
    decreases results.len() - k,
{
    if k >= results.len() {
        None
    } else if results[k as int].line_number == l {
        Some(k)
    } else {
        first_at(results, l, k + 1)
    }
}

proof fn lemma_first_at(results: Seq<SearchMatch>, l: int, k: nat)
    ensures
        first_at(results, l, k) matches Some(i) ==> k <= i < results.len()
            && results[i as int].line_number == l,
    decreases results.len() - k,
{
    if k < results.len() && results[k as int].line_number != l {
        lemma_first_at(results, l, k + 1);
    }
}

/// The score of the first result on line `l`, if any.
pub open spec fn similarity_at(results: Seq<SearchMatch>, l: int) -> Option<Similarity> {
    match first_at(results, l, 0) {
        Some(i) => results[i as int].similarity,
        None => None,
    }
}

/// The entry that stands between two runs of context lines that do not touch.
pub open spec fn separator_view() -> MatchView {
    MatchView { line_number: 0, line: seq!['-', '-'], column: 0, similarity: None }
}

/// The context output from line `l` on, `prev` being the last line already
/// output (0 when none): each line in some window, in order, preceded by a
/// separator when it does not follow the previous one directly.
pub open spec fn context_from(
    lines: Seq<Seq<char>>,
    results: Seq<SearchMatch>,
    before: int,
    after: int,
    l: int,
    prev: int,
) -> Seq<MatchView>
    decreases lines.len() + 1 - l,
{
    if l < 1 || l > lines.len() {
        seq![]
    } else if in_context(results, before, after, lines.len() as int, l) {
        let sep = if prev > 0 && l > prev + 1 { seq![separator_view()] } else { seq![] };
        let entry = MatchView {
            line_number: l as usize,
            line: lines[l - 1],
            column: 0,
            similarity: score_view(similarity_at(results, l)),
        };
        sep + seq![entry] + context_from(lines, results, before, after, l + 1, l)
    } else {
        context_from(lines, results, before, after, l + 1, prev)
    }
}

/// The lines of a file around the given results: `None` when the content is not
/// UTF-8 or has no lines, else every line within `before` lines before or
/// `after` lines after some result, in order, runs that do not touch separated
/// by a `--` entry.
pub fn read_lines_for_context(
    content: &[u8],
    results: &Vec<SearchMatch>,
    before: usize,
    after: usize,
) -> (res: Option<Vec<SearchMatch>>)
    ensures
        res is None <==> !valid_utf8(content@) || content_lines(content@).len() == 0,
        res matches Some(out) ==> match_views(out@) == context_from(
            content_lines(content@),
            results@,
            before as int,
            after as int,
            1,
            0,
        ),
{
    let text = utf8_str(content)?;
    let all_lines = split_lines(text);
    let ghost lines = views(all_lines@);
    let n = all_lines.len();
    if n == 0 {
        return None;
    }
    let r = results.len();
    // mark[l - 1]: line l lies in some window
    let mut mark: Vec<bool> = Vec::new();
    // firsts[l - 1]: index of the first result on line l, or r when there is none
    let mut firsts: Vec<usize> = Vec::new();
    for l in 0..n
        invariant
            mark.len() == l,
            firsts.len() == l,
            forall|m: int| 0 <= m < l ==> !mark@[m],
            forall|m: int| 0 <= m < l ==> firsts@[m] == r,
    {
        mark.push(false);
        firsts.push(r);
    }
    for k in 0..r
        invariant
            n == all_lines.len(),
            r == results.len(),
            mark.len() == n,
            forall|j: int| 0 <= j < n ==> (#[trigger] mark@[j] <==> exists|i: int| 0 <= i < k
                && #[trigger] in_window(results@[i].line_number as int, before as int, after as int, n as int, j + 1)),
    {
        let ln = results[k].line_number;
        let lo: usize = if ln > before { ln - before } else { 1 };
        let hi: usize = if ln <= n && after <= n - ln { ln + after } else { n };
        assert(lo == window_start(ln as int, before as int));
        assert(hi == window_end(ln as int, after as int, n as int));
        let ghost old_mark = mark@;
        if lo <= hi {
            let mut l = lo;
            loop
                invariant_except_break
                    1 <= lo <= l <= hi <= n,
                    mark.len() == n,
                    forall|j: int| 0 <= j < n ==> (#[trigger] mark@[j] <==> (old_mark[j] || (lo <= j + 1 < l))),
                ensures
                    mark.len() == n,
                    forall|j: int| 0 <= j < n ==> (#[trigger] mark@[j] <==> (old_mark[j] || (lo <= j + 1 <= hi))),
                decreases hi - l,
            {
                mark.set(l - 1, true);
                if l == hi {
                    break;
                }
                l = l + 1;
            }
        }
        assert forall|j: int| 0 <= j < n implies (#[trigger] mark@[j] <==> exists|i: int| 0 <= i < k + 1
            && #[trigger] in_window(results@[i].line_number as int, before as int, after as int, n as int, j + 1)) by {
            if in_window(ln as int, before as int, after as int, n as int, j + 1) {
                assert(mark@[j]);
            }
            if mark@[j] && !old_mark[j] {
                assert(in_window(results@[k as int].line_number as int, before as int, after as int, n as int, j + 1));
            }
        }
    }
    let mut k = r;
    while k > 0
        invariant
            k <= r,
            r == results.len(),
            firsts.len() == n,
            forall|j: int| 0 <= j < n ==> #[trigger] firsts@[j] == (match first_at(results@, j + 1, k as nat) {
                Some(i) => i as int,
                None => r as int,
            }),
        decreases k,
    {
        k = k - 1;
        let ln = results[k].line_number;
        if 1 <= ln && ln <= n {
            firsts.set(ln - 1, k);
        }
        assert forall|j: int| 0 <= j < n implies #[trigger] firsts@[j] == (match first_at(results@, j + 1, k as nat) {
            Some(i) => i as int,
            None => r as int,
        }) by {
            assert(first_at(results@, j + 1, k as nat) == if results@[k as int].line_number == j + 1 {
                Some(k as nat)
            } else {
                first_at(results@, j + 1, (k + 1) as nat)
            });
        }
    }
    let mut out: Vec<SearchMatch> = Vec::new();
    let mut prev: usize = 0;
    let ghost full = context_from(lines, results@, before as int, after as int, 1, 0);
    for idx in 0..n
        invariant
            n == all_lines.len(),
            lines == views(all_lines@),
            r == results.len(),
            mark.len() == n,
            firsts.len() == n,
            forall|j: int| 0 <= j < n ==> (#[trigger] mark@[j] <==> in_context(results@, before as int, after as int, n as int, j + 1)),
            forall|j: int| 0 <= j < n ==> #[trigger] firsts@[j] == (match first_at(results@, j + 1, 0) {
                Some(i) => i as int,
                None => r as int,
            }),
            prev <= idx,
            match_views(out@) + context_from(lines, results@, before as int, after as int, idx + 1, prev as int) == full,
    {
        let l = idx + 1;
        let ghost old_out = match_views(out@);
        if mark[idx] {
            let ghost sep_seq = if prev > 0 && l > prev + 1 { seq![separator_view()] } else { seq![] };
            if prev > 0 && l > prev + 1 {
                let sep = SearchMatch { line_number: 0, line: String::from_str("--"), column: 0, similarity: None };
                proof {
                    reveal_strlit("--");
                }
                assert(sep.line@ =~= seq!['-', '-']);
                assert(sep@ == separator_view());
                out.push(sep);
            }
            let f = firsts[idx];
            proof {
                lemma_first_at(results@, l as int, 0);
            }
            let similarity = if f < r { copy_similarity(&results[f].similarity) } else { None };
            assert(score_view(similarity) == score_view(similarity_at(results@, l as int)));
            let entry = SearchMatch { line_number: l, line: all_lines[idx].clone(), column: 0, similarity };
            out.push(entry);
            assert(match_views(out@) =~= old_out + sep_seq + seq![entry@]);
            prev = l;
        }
    }
    Some(out)
}

/// The settings of a search.
pub struct SearchConfig {
    pub color_when: ColorWhen,
    pub show_filename: bool,
    pub show_line_number: bool,
    pub count_mode: bool,
    pub files_with_matches_mode: bool,
    pub invert_match: bool,
    pub after_context: usize,
    pub before_context: usize,
    pub context: usize,
    pub globs: Vec<String>,
    pub file_types: Vec<String>,
    pub type_not: Vec<String>,
    pub max_count: Option<usize>,
}

impl Default for SearchConfig {
    /// Colors chosen automatically, line numbers shown, nothing else enabled.
    fn default() -> (res: Self)
        ensures
            res.color_when == ColorWhen::Auto,
            !res.show_filename,
            res.show_line_number,
            !res.count_mode,
            !res.files_with_matches_mode,
            !res.invert_match,
            res.after_context == 0,
            res.before_context == 0,
            res.context == 0,
            res.globs@.len() == 0,
            res.file_types@.len() == 0,
            res.type_not@.len() == 0,
            res.max_count is None,
    {
        SearchConfig {
            color_when: ColorWhen::Auto,
            show_filename: false,
            show_line_number: true,
            count_mode: false,
            files_with_matches_mode: false,
            invert_match: false,
            after_context: 0,
            before_context: 0,
            context: 0,
            globs: Vec::new(),
            file_types: Vec::new(),
            type_not: Vec::new(),
            max_count: None,
        }
    }
}

/// The positions of the lines of `lines[k..]` that are not blank, in order.
pub open spec fn nonblank_positions_from(lines: Seq<Seq<char>>, k: int) -> Seq<int>
    decreases lines.len() - k,
{
    if k < 0 || k >= lines.len() {
        seq![]
    } else if !is_blank(lines[k]) {
        seq![k] + nonblank_positions_from(lines, k + 1)
    } else {
        nonblank_positions_from(lines, k + 1)
    }
}

/// The positions of the lines of `lines` that are not blank, in order.
pub open spec fn nonblank_positions(lines: Seq<Seq<char>>) -> Seq<int> {
    nonblank_positions_from(lines, 0)
}

/// The pattern a regex search compiles: the query escaped for a literal
/// search, then made case-insensitive and whole-word as asked.
pub open spec fn regex_search_pattern(pattern: Seq<char>, case_insensitive: bool, word_regexp: bool, fixed_strings: bool) -> Seq<char> {
    full_pattern(if fixed_strings { regex_escaped(pattern) } else { pattern }, case_insensitive, word_regexp)
}

/// The similarity results on the non-blank lines of a file, carried back to the
/// numbering of all its lines.
pub open spec fn renumbered(positions: Seq<int>, results: Seq<SearchMatch>) -> Seq<MatchView> {
    results.map_values(|m: SearchMatch| MatchView {
        line_number: (positions[m.line_number - 1] + 1) as usize,
        line: m.line@,
        column: m.column,
        similarity: score_view(m.similarity),
    })
}

/// Whether line index `k` is the renumbered line of some result.
pub open spec fn renumbered_hit(positions: Seq<int>, results: Seq<SearchMatch>, k: int) -> bool {
    exists|j: int| 0 <= j < results.len() && positions[results[j].line_number - 1] == k
}

/// The lines `lines[k..]` that no result names after renumbering, in order,
/// without score.
pub open spec fn unselected_from(lines: Seq<Seq<char>>, positions: Seq<int>, results: Seq<SearchMatch>, k: int) -> Seq<MatchView>
    decreases lines.len() - k,
{
    if k < 0 || k >= lines.len() {
        seq![]
    } else {
        let rest = unselected_from(lines, positions, results, k + 1);
        if renumbered_hit(positions, results, k) {
            rest
        } else {
            seq![MatchView { line_number: (k + 1) as usize, line: lines[k], column: 1, similarity: None }] + rest
        }
    }
}

/// Every position listed from `k` on lies in `k..lines.len()`.
pub proof fn lemma_nonblank_positions_bounds(lines: Seq<Seq<char>>, k: int)
    requires
        0 <= k,
    ensures
        forall|j: int| 0 <= j < nonblank_positions_from(lines, k).len()
            ==> k <= #[trigger] nonblank_positions_from(lines, k)[j] < lines.len(),
    decreases lines.len() - k,
{
    if k < lines.len() {
        lemma_nonblank_positions_bounds(lines, k + 1);
        let rest = nonblank_positions_from(lines, k + 1);
        if !is_blank(lines[k]) {
            assert forall|j: int| 0 <= j < nonblank_positions_from(lines, k).len()
                implies k <= #[trigger] nonblank_positions_from(lines, k)[j] < lines.len() by {
                if j > 0 {
                    assert(nonblank_positions_from(lines, k)[j] == rest[j - 1]);
                }
            }
        }
    }
}

/// The results of searching one file whose bytes are `content`.
///
/// A regex search compiles the query (escaped with `fixed_strings`) and selects
/// lines with [`match_regex_lines`]. A similarity search takes
/// `semantic_results`, the results of [`crate::matcher::match_semantic_lines`] on the file's
/// non-blank lines, and numbers them as lines of the whole file; inverted, it
/// selects every line that no result names, blank lines included, so a file
/// whose lines are all blank gives all of them.
pub fn search_file(
    content: &[u8],
    mode: &SearchMode,
    config: &SearchConfig,
    semantic_results: &Vec<SearchMatch>,
) -> (res: Result<Vec<SearchMatch>, SearchError>)
    requires
        mode is Semantic && valid_utf8(content@) ==> forall|j: int| 0 <= j < semantic_results.len()
            ==> 1 <= #[trigger] semantic_results@[j].line_number <= nonblank_positions(content_lines(content@)).len(),
    ensures
        match mode {
            SearchMode::Regex { pattern, case_insensitive, word_regexp, fixed_strings } => {
                let p = regex_search_pattern(pattern@, *case_insensitive, *word_regexp, *fixed_strings);
                &&& (res is Ok <==> regex_compiles(p) && valid_utf8(content@))
                &&& (res matches Err(e) ==> (e is Pattern <==> !regex_compiles(p)))
                &&& (res matches Ok(out) ==> match_views(out@) == regex_results(p, content_lines(content@), config.invert_match))
                &&& (config.invert_match ==> (res matches Ok(out) ==> forall|t: int| 0 <= t < out.len() ==> (#[trigger] out@[t]).column == 1))
                &&& (*fixed_strings ==> (res matches Ok(out) ==> match_views(out@)
                    == regex_results(full_pattern(regex_escaped(pattern@), *case_insensitive, *word_regexp), content_lines(content@), config.invert_match)))
                &&& (*fixed_strings && !*case_insensitive && !*word_regexp ==> (res matches Ok(out)
                    ==> literal_selection(pattern@, content_lines(content@), config.invert_match, match_views(out@))))
            },
            SearchMode::Semantic { .. } => {
                let lines = content_lines(content@);
                let pos = nonblank_positions(lines);
                &&& (res is Ok <==> valid_utf8(content@))
                &&& (res matches Err(e) ==> e is NotUtf8)
                &&& (res matches Ok(out) ==> match_views(out@) == if config.invert_match {
                    unselected_from(lines, pos, semantic_results@, 0)
                } else {
                    renumbered(pos, semantic_results@)
                })
                &&& (!config.invert_match ==> (res matches Ok(out) ==> out.len() == semantic_results.len()
                    && forall|t: int| 0 <= t < out.len() ==> {
                        &&& (#[trigger] out@[t]).line@ == semantic_results@[t].line@
                        &&& out@[t].column == semantic_results@[t].column
                        &&& match semantic_results@[t].similarity {
                            Some(sc) => out@[t].similarity matches Some(o) && o.rank == sc.rank && o.text@ == sc.text@,
                            None => out@[t].similarity is None,
                        }
                    }))
            },
        },
{
    match mode {
        SearchMode::Regex { pattern, case_insensitive, word_regexp, fixed_strings } => {
            let actual = if *fixed_strings { regex_escape(pattern.as_str()) } else { pattern.clone() };
            let matcher = match RegexMatcher::new(actual.as_str(), *case_insensitive, *word_regexp) {
                Ok(m) => m,
                Err(e) => return Err(SearchError::Pattern(e)),
            };
            assert(matcher.pattern() == regex_search_pattern(pattern@, *case_insensitive, *word_regexp, *fixed_strings));
            let lines = read_lines(content)?;
            let out = match_regex_lines(lines.as_slice(), &matcher, config.invert_match);
            assert(views(lines@) == content_lines(content@));
            if *fixed_strings {
                assert(regex_search_pattern(pattern@, *case_insensitive, *word_regexp, *fixed_strings)
                    == full_pattern(regex_escaped(pattern@), *case_insensitive, *word_regexp));
            }
            if *fixed_strings && !*case_insensitive && !*word_regexp {
                proof {
                    lemma_literal_selection(pattern@, content_lines(content@), config.invert_match);
                }
            }
            Ok(out)
        },
        SearchMode::Semantic { .. } => {
            let (lines, orig_indices) = read_nonempty_lines(content)?;
            let ghost all = content_lines(content@);
            let ghost pos = nonblank_positions(all);
            proof {
                lemma_nonblank_positions_bounds(all, 0);
            }
            assert(views(lines@).len() == lines.len());
            assert(as_ints(orig_indices@).len() == orig_indices.len());
            if config.invert_match {
                let all_lines = read_lines(content)?;
                let n = all_lines.len();
                let mut hit: Vec<bool> = Vec::new();
                for i in 0..n
                    invariant
                        hit.len() == i,
                        forall|m: int| 0 <= m < i ==> !hit@[m],
                {
                    hit.push(false);
                }
                for j in 0..semantic_results.len()
                    invariant
                        n == all.len(),
                        as_ints(orig_indices@) == pos,
                        hit.len() == n,
                        forall|j: int| 0 <= j < semantic_results.len()
                            ==> 1 <= #[trigger] semantic_results@[j].line_number <= pos.len(),
                        forall|i: int| 0 <= i < pos.len() ==> #[trigger] pos[i] < n,
                        forall|m: int| 0 <= m < n ==> (#[trigger] hit@[m] <==> exists|k: int| 0 <= k < j
                            && pos[semantic_results@[k].line_number - 1] == m),
                {
                    let p = orig_indices[semantic_results[j].line_number - 1];
                    assert(p as int == pos[semantic_results@[j as int].line_number - 1]);
                    hit.set(p, true);
                    assert forall|m: int| 0 <= m < n implies (#[trigger] hit@[m] <==> exists|k: int| 0 <= k < j + 1
                        && pos[semantic_results@[k].line_number - 1] == m) by {
                        if m == p {
                            assert(pos[semantic_results@[j as int].line_number - 1] == m);
                        }
                    }
                }
                let mut out: Vec<SearchMatch> = Vec::new();
                for i in 0..n
                    invariant
                        n == all.len(),
                        all == views(all_lines@),
                        hit.len() == n,
                        forall|m: int| 0 <= m < n ==> (#[trigger] hit@[m] <==> renumbered_hit(pos, semantic_results@, m)),
                        match_views(out@) + unselected_from(all, pos, semantic_results@, i as int)
                            == unselected_from(all, pos, semantic_results@, 0),
                {
                    assert(all_lines@[i as int]@ == all[i as int]);
                    if !hit[i] {
                        let m = SearchMatch { line_number: i + 1, line: all_lines[i].clone(), column: 1, similarity: None };
                        let ghost old_out = match_views(out@);
                        out.push(m);
                        assert(match_views(out@) =~= old_out.push(m@));
                    }
                }
                Ok(out)
            } else {
                let mut out: Vec<SearchMatch> = Vec::new();
                for j in 0..semantic_results.len()
                    invariant
                        as_ints(orig_indices@) == pos,
                        forall|j: int| 0 <= j < semantic_results.len()
                            ==> 1 <= #[trigger] semantic_results@[j].line_number <= pos.len(),
                        forall|i: int| 0 <= i < pos.len() ==> #[trigger] pos[i] < all.len(),
                        all.len() <= usize::MAX,
                        match_views(out@) == renumbered(pos, semantic_results@.take(j as int)),
                {
                    let r = &semantic_results[j];
                    let p = orig_indices[r.line_number - 1];
                    assert(p as int == pos[r.line_number - 1]);
                    let m = SearchMatch {
                        line_number: p + 1,
                        line: r.line.clone(),
                        column: r.column,
                        similarity: copy_similarity(&r.similarity),
                    };
                    let ghost old_out = match_views(out@);
                    out.push(m);
                    assert(match_views(out@) =~= old_out.push(m@));
                    assert(semantic_results@.take(j + 1) =~= semantic_results@.take(j as int).push(*r));
                    assert(renumbered(pos, semantic_results@.take(j + 1)) =~= renumbered(pos, semantic_results@.take(j as int)).push(m@));
                }
                assert(semantic_results@.take(semantic_results.len() as int) =~= semantic_results@);
                proof {
                    assert(match_views(out@).len() == out.len());
                    assert forall|t: int| 0 <= t < out.len() implies {
                        &&& (#[trigger] out@[t]).line@ == semantic_results@[t].line@
                        &&& out@[t].column == semantic_results@[t].column
                        &&& match semantic_results@[t].similarity {
                            Some(sc) => out@[t].similarity matches Some(o) && o.rank == sc.rank && o.text@ == sc.text@,
                            None => out@[t].similarity is None,
                        }
                    } by {
                        assert(match_views(out@)[t] == out@[t]@);
                        assert(out@[t]@ == renumbered(pos, semantic_results@)[t]);
                        assert(score_view(out@[t].similarity) == score_view(semantic_results@[t].similarity));
                    }
                }
                Ok(out)
            }
        },
    }
}

proof fn lemma_nonblank_positions_from(lines: Seq<Seq<char>>, k: int)
    requires
        0 <= k <= lines.len(),
    ensures
        ({
            let p = nonblank_positions_from(lines, k);
            &&& forall|j: int| 0 <= j < p.len() ==> k <= #[trigger] p[j] < lines.len() && !is_blank(lines[p[j]])
            &&& forall|j: int, l: int| 0 <= j < l < p.len() ==> p[j] < p[l]
            &&& forall|i: int| k <= i < lines.len() && !is_blank(#[trigger] lines[i]) ==> exists|j: int| 0 <= j < p.len() && p[j] == i
        }),
    decreases lines.len() - k,
{
    if k < lines.len() {
        lemma_nonblank_positions_from(lines, k + 1);
        let p = nonblank_positions_from(lines, k);
        let rest = nonblank_positions_from(lines, k + 1);
        if !is_blank(lines[k]) {
            assert(p == seq![k] + rest);
            assert forall|j: int| 0 <= j < p.len() implies k <= #[trigger] p[j] < lines.len() && !is_blank(lines[p[j]]) by {
                if j > 0 {
                    assert(p[j] == rest[j - 1]);
                }
            }
            assert forall|j: int, l: int| 0 <= j < l < p.len() implies p[j] < p[l] by {
                assert(p[l] == rest[l - 1]);
                if j > 0 {
                    assert(p[j] == rest[j - 1]);
                }
            }
            assert forall|i: int| k <= i < lines.len() && !is_blank(#[trigger] lines[i]) implies exists|j: int| 0 <= j < p.len() && p[j] == i by {
                if i == k {
                    assert(p[0] == i);
                } else {
                    let j = choose|j: int| 0 <= j < rest.len() && rest[j] == i;
                    assert(p[j + 1] == i);
                }
            }
        }
    }
}

/// The kept lines of a file are its non-blank lines: their positions increase,
/// each names a non-blank line, and every non-blank line is named.
pub proof fn law_nonblank_positions(lines: Seq<Seq<char>>)
    ensures
        ({
            let p = nonblank_positions(lines);
            &&& forall|j: int| 0 <= j < p.len() ==> 0 <= #[trigger] p[j] < lines.len() && !is_blank(lines[p[j]])
            &&& forall|j: int, l: int| 0 <= j < l < p.len() ==> p[j] < p[l]
            &&& forall|i: int| 0 <= i < lines.len() && !is_blank(#[trigger] lines[i]) ==> exists|j: int| 0 <= j < p.len() && p[j] == i
        }),
{
    lemma_nonblank_positions_from(lines, 0);
    let p = nonblank_positions(lines);
    assert(p == nonblank_positions_from(lines, 0));
    assert forall|i: int| 0 <= i < lines.len() && !is_blank(#[trigger] lines[i]) implies exists|j: int| 0 <= j < p.len() && p[j] == i by {
        assert(0 <= i);
    }
}

proof fn lemma_context_from(lines: Seq<Seq<char>>, results: Seq<SearchMatch>, before: int, after: int, l: int, prev: int)
    requires
        1 <= l,
        lines.len() <= usize::MAX,
    ensures
        ({
            let out = context_from(lines, results, before, after, l, prev);
            let n = lines.len() as int;
            &&& forall|t: int| 0 <= t < out.len() ==> (#[trigger] out[t]).line_number == 0 || ({
                &&& l <= out[t].line_number <= n
                &&& out[t].line == lines[out[t].line_number - 1]
                &&& in_context(results, before, after, n, out[t].line_number as int)
            })
            &&& forall|t: int, u: int| 0 <= t < u < out.len() && out[t].line_number > 0 && out[u].line_number > 0
                ==> out[t].line_number < out[u].line_number
            &&& forall|m: int| l <= m <= n && #[trigger] in_context(results, before, after, n, m)
                ==> exists|t: int| 0 <= t < out.len() && out[t].line_number == m
        }),
    decreases lines.len() + 1 - l,
{
    let n = lines.len() as int;
    if l <= n {
        lemma_context_from(lines, results, before, after, l + 1, l);
        lemma_context_from(lines, results, before, after, l + 1, prev);
        let out = context_from(lines, results, before, after, l, prev);
        if in_context(results, before, after, n, l) {
            let sep = if prev > 0 && l > prev + 1 { seq![separator_view()] } else { seq![] };
            let entry = MatchView {
                line_number: l as usize,
                line: lines[l - 1],
                column: 0,
                similarity: score_view(similarity_at(results, l)),
            };
            let rest = context_from(lines, results, before, after, l + 1, l);
            let head = sep + seq![entry];
            assert(out == head + rest);
            assert forall|t: int| 0 <= t < out.len() implies (#[trigger] out[t]).line_number == 0 || ({
                &&& l <= out[t].line_number <= n
                &&& out[t].line == lines[out[t].line_number - 1]
                &&& in_context(results, before, after, n, out[t].line_number as int)
            }) by {
                if t >= head.len() {
                    assert(out[t] == rest[t - head.len()]);
                } else if t == head.len() - 1 {
                    assert(out[t] == entry);
                } else {
                    assert(out[t] == separator_view());
                }
            }
            assert forall|t: int, u: int| 0 <= t < u < out.len() && out[t].line_number > 0 && out[u].line_number > 0
                implies out[t].line_number < out[u].line_number by {
                if u >= head.len() {
                    assert(out[u] == rest[u - head.len()]);
                    if t >= head.len() {
                        assert(out[t] == rest[t - head.len()]);
                    } else if t == head.len() - 1 {
                        assert(out[t] == entry);
                    } else {
                        assert(out[t] == separator_view());
                    }
                } else {
                    assert(u == head.len() - 1);
                    assert(out[t] == separator_view());
                }
            }
            assert forall|m: int| l <= m <= n && #[trigger] in_context(results, before, after, n, m)
                implies exists|t: int| 0 <= t < out.len() && out[t].line_number == m by {
                if m == l {
                    assert(out[head.len() - 1] == entry);
                } else {
                    let t = choose|t: int| 0 <= t < rest.len() && rest[t].line_number == m;
                    assert(out[t + head.len()] == rest[t]);
                }
            }
        }
    }
}

proof fn lemma_context_shape(lines: Seq<Seq<char>>, results: Seq<SearchMatch>, before: int, after: int, l: int, prev: int)
    requires
        1 <= l,
        0 <= prev < l,
        lines.len() <= usize::MAX,
    ensures
        ({
            let out = context_from(lines, results, before, after, l, prev);
            &&& forall|t: int| 0 <= t < out.len() ==> ((#[trigger] out[t]).line_number == 0 <==> out[t] == separator_view())
            &&& out.len() > 0 ==> out.last().line_number > 0
            &&& out.len() > 0 && out[0].line_number == 0 ==> prev > 0 && out.len() > 1 && out[1].line_number > prev + 1
            &&& out.len() > 0 && out[0].line_number > 0 ==> prev == 0 || out[0].line_number == prev + 1
            &&& forall|t: int, u: int| #![trigger out[t], out[u]] 0 <= t && u == t + 1 && u < out.len()
                && out[t].line_number > 0 && out[u].line_number > 0 ==> out[u].line_number == out[t].line_number + 1
            &&& forall|t: int, u: int, v: int| #![trigger out[t], out[u], out[v]] 0 <= t && u == t + 1 && v == u + 1
                && v < out.len() && out[u].line_number == 0
                ==> out[t].line_number > 0 && out[v].line_number > out[t].line_number + 1
        }),
    decreases lines.len() + 1 - l,
{
    let n = lines.len() as int;
    if l <= n {
        lemma_context_shape(lines, results, before, after, l + 1, l);
        lemma_context_shape(lines, results, before, after, l + 1, prev);
        let out = context_from(lines, results, before, after, l, prev);
        if in_context(results, before, after, n, l) {
            let sep = if prev > 0 && l > prev + 1 { seq![separator_view()] } else { seq![] };
            let entry = MatchView {
                line_number: l as usize,
                line: lines[l - 1],
                column: 0,
                similarity: score_view(similarity_at(results, l)),
            };
            let rest = context_from(lines, results, before, after, l + 1, l);
            let head = sep + seq![entry];
            let h = head.len() as int;
            assert(out == head + rest);
            assert(out[h - 1] == entry);
            assert forall|t: int| 0 <= t < out.len() implies ((#[trigger] out[t]).line_number == 0 <==> out[t] == separator_view()) by {
                if t >= h {
                    assert(out[t] == rest[t - h]);
                } else if t < h - 1 {
                    assert(out[t] == separator_view());
                }
            }
            if rest.len() > 0 {
                assert(out.last() == rest.last());
            }
            assert forall|t: int, u: int| #![trigger out[t], out[u]] 0 <= t && u == t + 1 && u < out.len()
                && out[t].line_number > 0 && out[u].line_number > 0 implies out[u].line_number == out[t].line_number + 1 by {
                if t >= h {
                    assert(out[t] == rest[t - h]);
                    assert(out[u] == rest[u - h]);
                } else if t == h - 1 {
                    assert(out[u] == rest[0]);
                } else {
                    assert(out[t] == separator_view());
                }
            }
            assert forall|t: int, u: int, v: int| #![trigger out[t], out[u], out[v]] 0 <= t && u == t + 1 && v == u + 1
                && v < out.len() && out[u].line_number == 0
                implies out[t].line_number > 0 && out[v].line_number > out[t].line_number + 1 by {
                if t >= h {
                    assert(out[t] == rest[t - h]);
                    assert(out[u] == rest[u - h]);
                    assert(out[v] == rest[v - h]);
                } else if t == h - 1 {
                    assert(out[u] == rest[0]);
                    assert(out[v] == rest[1]);
                } else {
                    assert(out[u] == entry);
                }
            }
        }
    }
}

/// Where the context output puts its `--` entries: it neither starts nor ends
/// with one, two lines shown one after the other are neighbouring lines of the
/// file, and the lines on either side of a `--` are more than one line apart.
/// So a `--` stands exactly between shown lines that do not touch.
pub proof fn law_context_separators(lines: Seq<Seq<char>>, results: Seq<SearchMatch>, before: usize, after: usize)
    requires
        lines.len() <= usize::MAX,
    ensures
        ({
            let out = context_from(lines, results, before as int, after as int, 1, 0);
            &&& forall|t: int| 0 <= t < out.len() ==> ((#[trigger] out[t]).line_number == 0 <==> out[t] == separator_view())
            &&& out.len() > 0 ==> out[0].line_number > 0 && out.last().line_number > 0
            &&& forall|t: int, u: int| #![trigger out[t], out[u]] 0 <= t && u == t + 1 && u < out.len()
                && out[t].line_number > 0 && out[u].line_number > 0 ==> out[u].line_number == out[t].line_number + 1
            &&& forall|t: int, u: int, v: int| #![trigger out[t], out[u], out[v]] 0 <= t && u == t + 1 && v == u + 1
                && v < out.len() && out[u].line_number == 0
                ==> out[t].line_number > 0 && out[v].line_number > out[t].line_number + 1
        }),
{
    lemma_context_shape(lines, results, before as int, after as int, 1, 0);
}

/// The context output shows exactly the lines of the file that lie in the
/// window of some result, each once, in increasing order, every result on a
/// line of the file among them.
pub proof fn law_context_shows_results(lines: Seq<Seq<char>>, results: Seq<SearchMatch>, before: usize, after: usize)
    requires
        lines.len() <= usize::MAX,
    ensures
        ({
            let out = context_from(lines, results, before as int, after as int, 1, 0);
            let n = lines.len() as int;
            &&& forall|i: int| 0 <= i < results.len() && 1 <= #[trigger] results[i].line_number <= n
                ==> exists|t: int| 0 <= t < out.len() && out[t].line_number == results[i].line_number
            &&& forall|m: int| 1 <= m <= n && #[trigger] in_context(results, before as int, after as int, n, m)
                ==> exists|t: int| 0 <= t < out.len() && out[t].line_number == m
            &&& forall|t: int| 0 <= t < out.len() ==> (#[trigger] out[t]).line_number == 0 || ({
                &&& 1 <= out[t].line_number <= n
                &&& out[t].line == lines[out[t].line_number - 1]
                &&& in_context(results, before as int, after as int, n, out[t].line_number as int)
            })
            &&& forall|t: int, u: int| 0 <= t < u < out.len() && out[t].line_number > 0 && out[u].line_number > 0
                ==> out[t].line_number < out[u].line_number
        }),
{
    lemma_context_from(lines, results, before as int, after as int, 1, 0);
    let n = lines.len() as int;
    assert forall|i: int| 0 <= i < results.len() && 1 <= #[trigger] results[i].line_number <= n
        implies exists|t: int| 0 <= t < context_from(lines, results, before as int, after as int, 1, 0).len()
            && context_from(lines, results, before as int, after as int, 1, 0)[t].line_number == results[i].line_number by {
        let ln = results[i].line_number as int;
        assert(in_window(ln, before as int, after as int, n, ln));
        assert(in_context(results, before as int, after as int, n, ln));
    }
}

/// Similarity results given in line order stay in line order once numbered as
/// lines of the whole file.
pub proof fn law_renumbered_in_order(lines: Seq<Seq<char>>, results: Seq<SearchMatch>)
    requires
        lines.len() <= usize::MAX,
        forall|j: int| 0 <= j < results.len()
            ==> 1 <= #[trigger] results[j].line_number <= nonblank_positions(lines).len(),
        forall|j: int, l: int| 0 <= j < l < results.len() ==> results[j].line_number < results[l].line_number,
    ensures
        forall|t: int, u: int| 0 <= t < u < results.len()
            ==> renumbered(nonblank_positions(lines), results)[t].line_number
                < renumbered(nonblank_positions(lines), results)[u].line_number,
{
    law_nonblank_positions(lines);
    let p = nonblank_positions(lines);
    let r = renumbered(p, results);
    assert forall|t: int, u: int| 0 <= t < u < results.len() implies r[t].line_number < r[u].line_number by {
        let a = results[t].line_number - 1;
        let b = results[u].line_number - 1;
        assert(p[a] < p[b]);
        assert(p[b] < lines.len());
    }
}

proof fn lemma_unselected_from(lines: Seq<Seq<char>>, positions: Seq<int>, results: Seq<SearchMatch>, k: int)
    requires
        0 <= k <= lines.len(),
        lines.len() <= usize::MAX,
    ensures
        ({
            let u = unselected_from(lines, positions, results, k);
            &&& forall|t: int| 0 <= t < u.len() ==> {
                &&& k + 1 <= #[trigger] u[t].line_number <= lines.len()
                &&& !renumbered_hit(positions, results, u[t].line_number - 1)
            }
            &&& forall|i: int| k <= i < lines.len() && !renumbered_hit(positions, results, i)
                ==> #[trigger] has_result_at(u, i + 1)
        }),
    decreases lines.len() - k,
{
    if k < lines.len() {
        lemma_unselected_from(lines, positions, results, k + 1);
        let u = unselected_from(lines, positions, results, k);
        let rest = unselected_from(lines, positions, results, k + 1);
        if !renumbered_hit(positions, results, k) {
            let entry = MatchView { line_number: (k + 1) as usize, line: lines[k], column: 1, similarity: None };
            assert(u == seq![entry] + rest);
            assert forall|t: int| 0 <= t < u.len() implies {
                &&& k + 1 <= #[trigger] u[t].line_number <= lines.len()
                &&& !renumbered_hit(positions, results, u[t].line_number - 1)
            } by {
                if t > 0 {
                    assert(u[t] == rest[t - 1]);
                }
            }
            assert forall|i: int| k <= i < lines.len() && !renumbered_hit(positions, results, i)
                implies #[trigger] has_result_at(u, i + 1) by {
                if i == k {
                    assert(u[0].line_number == i + 1);
                } else {
                    assert(has_result_at(rest, i + 1));
                    let t = choose|t: int| 0 <= t < rest.len() && rest[t].line_number == i + 1;
                    assert(u[t + 1] == rest[t]);
                }
            }
        } else {
            assert forall|i: int| k <= i < lines.len() && !renumbered_hit(positions, results, i)
                implies #[trigger] has_result_at(u, i + 1) by {
                assert(i != k);
                assert(has_result_at(rest, i + 1));
            }
        }
    }
}

/// In a similarity search, inverting selects the other lines: each line of the file has a result in exactly one of the
/// two searches.
pub proof fn law_semantic_invert_complements(lines: Seq<Seq<char>>, results: Seq<SearchMatch>)
    requires
        lines.len() <= usize::MAX,
        forall|j: int| 0 <= j < results.len()
            ==> 1 <= #[trigger] results[j].line_number <= nonblank_positions(lines).len(),
    ensures
        forall|i: int| 0 <= i < lines.len() ==>
            #[trigger] has_result_at(renumbered(nonblank_positions(lines), results), i + 1)
            != has_result_at(unselected_from(lines, nonblank_positions(lines), results, 0), i + 1),
{
    law_nonblank_positions(lines);
    lemma_unselected_from(lines, nonblank_positions(lines), results, 0);
    let p = nonblank_positions(lines);
    let r = renumbered(p, results);
    let u = unselected_from(lines, p, results, 0);
    assert forall|i: int| 0 <= i < lines.len() implies
        #[trigger] has_result_at(r, i + 1) != has_result_at(u, i + 1) by {
        if renumbered_hit(p, results, i) {
            let j = choose|j: int| 0 <= j < results.len() && p[results[j].line_number - 1] == i;
            assert(r[j].line_number == i + 1);
            if has_result_at(u, i + 1) {
                let t = choose|t: int| 0 <= t < u.len() && u[t].line_number == i + 1;
                assert(!renumbered_hit(p, results, u[t].line_number - 1));
            }
        } else {
            if has_result_at(r, i + 1) {
                let t = choose|t: int| 0 <= t < r.len() && r[t].line_number == i + 1;
                let a = results[t].line_number - 1;
                assert(0 <= p[a] < lines.len());
                assert(p[a] == i);
            }
            assert(has_result_at(u, i + 1));
        }
    }
}

/// A literal search (`-F`) escapes the query whatever the other flags: with
/// `-i` the compiled pattern is the case-insensitive form of the plain literal
/// pattern, with `-w` it is that pattern between word boundaries. A literal
/// search with neither flag selects exactly the lines that contain the query
/// (see the contract of `search_file`), so `-i` and `-w` only add the case
/// flag and the anchors around the same escaped query.
pub proof fn law_literal_flags_keep_the_escaped_query(pattern: Seq<char>, word_regexp: bool)
    ensures
        regex_search_pattern(pattern, true, word_regexp, true)
            == seq!['(', '?', 'i', ')'] + regex_search_pattern(pattern, false, word_regexp, true),
        regex_search_pattern(pattern, false, true, true)
            == seq!['\\', 'b'] + regex_search_pattern(pattern, false, false, true) + seq!['\\', 'b'],
        regex_search_pattern(pattern, false, false, true) == regex_escaped(pattern),
{
}

/// A similarity result keeps its line, column and score when it is numbered
/// as a line of the whole file: only the line number changes.
pub proof fn law_renumbered_keeps_scores(positions: Seq<int>, results: Seq<SearchMatch>)
    ensures
        renumbered(positions, results).len() == results.len(),
        forall|t: int| 0 <= t < results.len() ==> {
            let o = #[trigger] renumbered(positions, results)[t];
            &&& o.line == results[t].line@
            &&& o.column == results[t].column
            &&& match results[t].similarity {
                Some(sc) => o.similarity == Some((sc.rank, sc.text@)),
                None => o.similarity is None,
            }
        },
{
}

} // verus!
