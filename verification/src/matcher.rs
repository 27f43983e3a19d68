//! Search modes, matches, and the selection of matching lines.

use vstd::prelude::*;
use crate::text::views;

verus! {

/// `regex::Error`, the error of a pattern that does not compile.
#[verifier::external_type_specification]
#[verifier::external_body]
pub struct ExRegexError(regex::Error);

/// The score of a line in similarity search, as the library carries it: `rank`
/// orders scores as the scores compare (for a score `x`, the IEEE-754 bit pattern
/// of `x + 0.0` with the sign bit set when `x` is not negative, and with all bits
/// flipped when it is), and `text` is the score rendered with four decimals.
pub struct Similarity {
    pub rank: u64,
    pub text: String,
}

impl View for Similarity {
    type V = (u64, Seq<char>);

    open spec fn view(&self) -> (u64, Seq<char>) {
        (self.rank, self.text@)
    }
}

/// The view of an optional score.
pub open spec fn score_view(s: Option<Similarity>) -> Option<(u64, Seq<char>)> {
    match s {
        Some(x) => Some(x@),
        None => None,
    }
}

/// The view of the score 0.0.
pub open spec fn zero_score() -> (u64, Seq<char>) {
    (0x8000_0000_0000_0000u64, seq!['0', '.', '0', '0', '0', '0'])
}

impl Similarity {
    /// The score 0.0.
    pub fn zero() -> (res: Similarity)
        ensures
            res@ == zero_score(),
    {
        let text = String::from_str("0.0000");
        proof {
            reveal_strlit("0.0000");
        }
        assert(text@ =~= zero_score().1);
        Similarity { rank: 0x8000_0000_0000_0000u64, text }
    }

    /// A copy of this score.
    pub fn copy(&self) -> (res: Similarity)
        ensures
            res == *self,
    {
        Similarity { rank: self.rank, text: self.text.clone() }
    }
}

/// A copy of an optional score.
pub fn copy_similarity(s: &Option<Similarity>) -> (res: Option<Similarity>)
    ensures
        res == *s,
{
    match s {
        Some(x) => Some(x.copy()),
        None => None,
    }
}

/// How lines are selected.
pub enum SearchMode {
    /// By a regular expression.
    Regex { pattern: String, case_insensitive: bool, word_regexp: bool, fixed_strings: bool },
    /// By similarity to a query; `threshold_bits` is the IEEE-754 bit pattern of
    /// the threshold, which only the scoring side reads.
    Semantic { query: String, threshold_bits: u64 },
}

/// One selected (or context) line of a file.
pub struct SearchMatch {
    pub line_number: usize,
    pub line: String,
    pub column: usize,
    pub similarity: Option<Similarity>,
}

/// The mathematical content of a [`SearchMatch`].
pub struct MatchView {
    pub line_number: usize,
    pub line: Seq<char>,
    pub column: usize,
    pub similarity: Option<(u64, Seq<char>)>,
}

impl View for SearchMatch {
    type V = MatchView;

    open spec fn view(&self) -> MatchView {
        MatchView {
            line_number: self.line_number,
            line: self.line@,
            column: self.column,
            similarity: score_view(self.similarity),
        }
    }
}

/// The views of a sequence of matches.
pub open spec fn match_views(s: Seq<SearchMatch>) -> Seq<MatchView> {
    s.map_values(|m: SearchMatch| m@)
}

impl SearchMatch {
    /// A copy of this match.
    pub fn copy(&self) -> (res: SearchMatch)
        ensures
            res@ == self@,
    {
        SearchMatch {
            line_number: self.line_number,
            line: self.line.clone(),
            column: self.column,
            similarity: copy_similarity(&self.similarity),
        }
    }
}

/// `regex::Regex`, a compiled regular expression.
#[verifier::external_type_specification]
#[verifier::external_body]
pub struct ExRegex(regex::Regex);

/// Whether `Regex::new` accepts `pattern` (it is valid and within the default
/// size limit).
pub uninterp spec fn regex_compiles(pattern: Seq<char>) -> bool;

/// Whether the regex compiled from `pattern` matches somewhere in `haystack`.
pub uninterp spec fn regex_matches(pattern: Seq<char>, haystack: Seq<char>) -> bool;

/// The byte ranges `(start, end)` of the successive non-overlapping matches of
/// the regex compiled from `pattern` in `haystack`.
pub uninterp spec fn regex_spans(pattern: Seq<char>, haystack: Seq<char>) -> Seq<(usize, usize)>;

/// Whether `c` has a meaning of its own in a regex (and so is escaped to be
/// matched literally).
pub open spec fn is_meta_char(c: char) -> bool {
    c == '\\' || c == '.' || c == '+' || c == '*' || c == '?' || c == '(' || c == ')' || c == '|'
        || c == '[' || c == ']' || c == '{' || c == '}' || c == '^' || c == '$' || c == '#'
        || c == '&' || c == '-' || c == '~'
}

/// `text` with a backslash put before each meta character.
pub open spec fn regex_escaped(text: Seq<char>) -> Seq<char>
    decreases text.len(),
{
    if text.len() == 0 {
        seq![]
    } else {
        let c = text.last();
        let head = regex_escaped(text.drop_last());
        if is_meta_char(c) { head + seq!['\\', c] } else { head.push(c) }
    }
}

/// Whether `needle` occurs in `haystack` as a contiguous run of characters.
pub open spec fn contains_chars(haystack: Seq<char>, needle: Seq<char>) -> bool {
    exists|i: int| 0 <= i <= haystack.len() - needle.len()
        && #[trigger] haystack.subrange(i, i + needle.len()) == needle
}

/// `regex::Regex::new`: `Ok` exactly when the pattern compiles.
#[verifier::external_body]
fn regex_new(pattern: &str) -> (res: Result<regex::Regex, regex::Error>)
    ensures
        res is Ok <==> regex_compiles(pattern@),
{
    regex::Regex::new(pattern)
}

/// `regex::Regex::is_match` on the regex of a matcher, which `RegexMatcher::new`
/// compiled from its `pattern`.
#[verifier::external_body]
fn regex_is_match(m: &RegexMatcher, haystack: &str) -> (res: bool)
    ensures
        res == regex_matches(m.pattern@, haystack@),
{
    m.regex.is_match(haystack)
}

/// `regex::Regex::find_iter` on the regex of a matcher, each match taken as its
/// byte range; `Match` guarantees `start <= end`, offsets into a `str` stay
/// within `isize::MAX`, and the iterator yields a match exactly when the regex
/// matches somewhere in the haystack (`is_match`).
#[verifier::external_body]
fn regex_find_spans(m: &RegexMatcher, haystack: &str) -> (res: Vec<(usize, usize)>)
    ensures
        res@ == regex_spans(m.pattern@, haystack@),
        res.len() > 0 <==> regex_matches(m.pattern@, haystack@),
        forall|i: int| 0 <= i < res.len() ==> #[trigger] res@[i].0 <= res@[i].1 <= isize::MAX,
{
    m.regex.find_iter(haystack).map(|x| (x.start(), x.end())).collect()
}

/// `regex::escape`: a backslash before each meta character, as its source
/// shows. Its documentation says that the result may be used as a literal in a
/// regular expression; the contract claims accordingly that the regex compiled
/// from the result matches exactly the haystacks that contain `text` as a run
/// of characters.
#[verifier::external_body]
pub(crate) fn regex_escape(text: &str) -> (res: String)
    ensures
        res@ == regex_escaped(text@),
        forall|h: Seq<char>| #[trigger] regex_matches(res@, h) <==> contains_chars(h, text@),
{
    regex::escape(text)
}

/// The pattern that `RegexMatcher::new` compiles: `(?i)` in front for a
/// case-insensitive search, and the pattern between `\b` anchors for a
/// whole-word search.
pub open spec fn full_pattern(pattern: Seq<char>, case_insensitive: bool, word_regexp: bool) -> Seq<char> {
    let word = if word_regexp { seq!['\\', 'b'] + pattern + seq!['\\', 'b'] } else { pattern };
    if case_insensitive { seq!['(', '?', 'i', ')'] + word } else { word }
}

/// A compiled regular expression together with the pattern it was compiled from.
pub struct RegexMatcher {
    pattern: String,
    regex: regex::Regex,
}

impl RegexMatcher {
    /// The pattern this matcher's regex was compiled from.
    pub closed spec fn pattern(&self) -> Seq<char> {
        self.pattern@
    }

    /// Compiles `pattern`, made case-insensitive and whole-word as asked.
    pub fn new(pattern: &str, case_insensitive: bool, word_regexp: bool) -> (res: Result<Self, regex::Error>)
        ensures
            res is Ok <==> regex_compiles(full_pattern(pattern@, case_insensitive, word_regexp)),
            res matches Ok(m) ==> m.pattern() == full_pattern(pattern@, case_insensitive, word_regexp),
    {
        let mut full = String::new();
        if case_insensitive {
            full.append("(?i)");
            proof {
                reveal_strlit("(?i)");
            }
        }
        if word_regexp {
            full.append("\\b");
            full.append(pattern);
            full.append("\\b");
            proof {
                reveal_strlit("\\b");
            }
        } else {
            full.append(pattern);
        }
        assert(full@ =~= full_pattern(pattern@, case_insensitive, word_regexp));
        let regex = regex_new(full.as_str())?;
        Ok(RegexMatcher { pattern: full, regex })
    }

    /// Whether the regex matches somewhere in `line`.
    pub fn is_match(&self, line: &str) -> (res: bool)
        ensures
            res == regex_matches(self.pattern(), line@),
    {
        regex_is_match(self, line)
    }

    /// The byte ranges of the successive matches in `line`.
    pub fn find_iter(&self, line: &str) -> (res: Vec<(usize, usize)>)
        ensures
            res@ == regex_spans(self.pattern(), line@),
            res.len() > 0 <==> regex_matches(self.pattern(), line@),
            forall|i: int| 0 <= i < res.len() ==> #[trigger] res@[i].0 <= res@[i].1 <= isize::MAX,
    {
        regex_find_spans(self, line)
    }
}

/// The 1-based column of the first match in `line` (1 when there is none).
pub open spec fn first_match_column(pattern: Seq<char>, line: Seq<char>) -> int {
    let spans = regex_spans(pattern, line);
    if spans.len() > 0 { spans[0].0 + 1 } else { 1 }
}

/// Whether a line is selected: it matches, or with `invert` it does not.
pub open spec fn regex_selects(pattern: Seq<char>, line: Seq<char>, invert: bool) -> bool {
    regex_matches(pattern, line) != invert
}

/// The results for `lines[k..]`: each selected line, in order, with its
/// 1-based number and the column of its first match.
pub open spec fn regex_results_from(pattern: Seq<char>, lines: Seq<Seq<char>>, invert: bool, k: int) -> Seq<MatchView>
    decreases lines.len() - k,
{
    if k < 0 || k >= lines.len() {
        seq![]
    } else {
        let rest = regex_results_from(pattern, lines, invert, k + 1);
        if regex_selects(pattern, lines[k], invert) {
            seq![MatchView {
                line_number: (k + 1) as usize,
                line: lines[k],
                column: first_match_column(pattern, lines[k]) as usize,
                similarity: None,
            }] + rest
        } else {
            rest
        }
    }
}

/// The lines selected by a regex, in order.
pub open spec fn regex_results(pattern: Seq<char>, lines: Seq<Seq<char>>, invert: bool) -> Seq<MatchView> {
    regex_results_from(pattern, lines, invert, 0)
}

/// The lines of `lines` that match (or, with `invert`, do not match), each with
/// its 1-based line number and the column of the first match; a line selected
/// because it does not match has no match, and so column 1.
pub fn match_regex_lines(lines: &[String], matcher: &RegexMatcher, invert: bool) -> (res: Vec<SearchMatch>)
    ensures
        match_views(res@) == regex_results(matcher.pattern(), views(lines@), invert),
        invert ==> forall|t: int| 0 <= t < res.len() ==> (#[trigger] res@[t]).column == 1,
        !invert ==> forall|t: int| 0 <= t < res.len()
            ==> regex_spans(matcher.pattern(), (#[trigger] res@[t]).line@).len() > 0,
{
    let ghost all = views(lines@);
    let ghost full = regex_results(matcher.pattern(), all, invert);
    let mut out: Vec<SearchMatch> = Vec::new();
    for i in 0..lines.len()
        invariant
            all == views(lines@),
            match_views(out@) + regex_results_from(matcher.pattern(), all, invert, i as int) == full,
            invert ==> forall|t: int| 0 <= t < out.len() ==> (#[trigger] out@[t]).column == 1,
            !invert ==> forall|t: int| 0 <= t < out.len()
                ==> regex_spans(matcher.pattern(), (#[trigger] out@[t]).line@).len() > 0,
    {
        let line = &lines[i];
        assert(line@ == all[i as int]);
        let ghost old_out = match_views(out@);
        let matched = matcher.is_match(line.as_str());
        if matched != invert {
            let spans = matcher.find_iter(line.as_str());
            let col: usize = if spans.len() > 0 { spans[0].0 } else { 0 };
            let m = SearchMatch { line_number: i + 1, line: line.clone(), column: col + 1, similarity: None };
            out.push(m);
            assert(match_views(out@) =~= old_out.push(m@));
        }
    }
    out
}

/// Whether some hit is for line index `i`.
pub open spec fn is_hit(hits: Seq<(usize, Similarity)>, i: int) -> bool {
    exists|j: int| 0 <= j < hits.len() && #[trigger] hits[j].0 == i
}

/// The result for a hit `(index, score)` on `lines`.
pub open spec fn hit_result(lines: Seq<Seq<char>>, hit: (usize, Similarity)) -> MatchView {
    MatchView {
        line_number: (hit.0 + 1) as usize,
        line: lines[hit.0 as int],
        column: 1,
        similarity: Some(hit.1@),
    }
}

/// The results for the lines `lines[k..]` that no hit names, in order, each with
/// the score 0.0.
pub open spec fn unhit_results_from(lines: Seq<Seq<char>>, hits: Seq<(usize, Similarity)>, k: int) -> Seq<MatchView>
    decreases lines.len() - k,
{
    if k < 0 || k >= lines.len() {
        seq![]
    } else {
        let rest = unhit_results_from(lines, hits, k + 1);
        if is_hit(hits, k) {
            rest
        } else {
            seq![MatchView {
                line_number: (k + 1) as usize,
                line: lines[k],
                column: 1,
                similarity: Some(zero_score()),
            }] + rest
        }
    }
}

/// The results of a similarity search over `lines`, given `hits`: the
/// `(index, score)` pairs of the lines whose score reached the threshold, in
/// line order. Without `invert`, one result per hit; with `invert`, one result per
/// line that no hit names, scored 0.0.
pub fn match_semantic_lines(lines: &[String], hits: &Vec<(usize, Similarity)>, invert: bool) -> (res: Vec<SearchMatch>)
    requires
        !invert ==> forall|j: int| 0 <= j < hits.len() ==> #[trigger] hits@[j].0 < lines.len(),
    ensures
        !invert ==> match_views(res@) == hits@.map_values(|h: (usize, Similarity)| hit_result(views(lines@), h)),
        invert ==> match_views(res@) == unhit_results_from(views(lines@), hits@, 0),
{
    let ghost all = views(lines@);
    let mut out: Vec<SearchMatch> = Vec::new();
    if !invert {
        for j in 0..hits.len()
            invariant
                all == views(lines@),
                forall|j: int| 0 <= j < hits.len() ==> #[trigger] hits@[j].0 < lines.len(),
                match_views(out@) == hits@.take(j as int).map_values(|h: (usize, Similarity)| hit_result(all, h)),
        {
            let i = hits[j].0;
            let m = SearchMatch {
                line_number: i + 1,
                line: lines[i].clone(),
                column: 1,
                similarity: Some(hits[j].1.copy()),
            };
            let ghost old_out = match_views(out@);
            out.push(m);
            assert(match_views(out@) =~= old_out.push(m@));
            assert(hits@.take(j + 1) =~= hits@.take(j as int).push(hits@[j as int]));
            assert(hits@.take(j + 1).map_values(|h: (usize, Similarity)| hit_result(all, h))
                =~= hits@.take(j as int).map_values(|h: (usize, Similarity)| hit_result(all, h)).push(hit_result(all, hits@[j as int])));
        }
        assert(hits@.take(hits.len() as int) =~= hits@);
        return out;
    }
    let n = lines.len();
    let mut hit: Vec<bool> = Vec::new();
    for i in 0..n
        invariant
            hit.len() == i,
            forall|m: int| 0 <= m < i ==> !hit@[m],
    {
        hit.push(false);
    }
    for j in 0..hits.len()
        invariant
            hit.len() == n,
            forall|m: int| 0 <= m < n ==> (#[trigger] hit@[m] <==> exists|k: int| 0 <= k < j && #[trigger] hits@[k].0 == m),
    {
        let i = hits[j].0;
        if i < n {
            hit.set(i, true);
        }
        assert forall|m: int| 0 <= m < n implies (#[trigger] hit@[m] <==> exists|k: int| 0 <= k < j + 1 && #[trigger] hits@[k].0 == m) by {
            if hits@[j as int].0 == m {
                assert(hit@[m]);
            }
        }
    }
    let zero = Similarity::zero();
    for i in 0..n
        invariant
            n == lines.len(),
            all == views(lines@),
            hit.len() == n,
            zero@ == zero_score(),
            forall|m: int| 0 <= m < n ==> (#[trigger] hit@[m] <==> is_hit(hits@, m)),
            match_views(out@) + unhit_results_from(all, hits@, i as int) == unhit_results_from(all, hits@, 0),
    {
        assert(lines@[i as int]@ == all[i as int]);
        if !hit[i] {
            let m = SearchMatch { line_number: i + 1, line: lines[i].clone(), column: 1, similarity: Some(zero.copy()) };
            let ghost old_out = match_views(out@);
            out.push(m);
            assert(match_views(out@) =~= old_out.push(m@));
        }
    }
    out
}

proof fn lemma_regex_results_from(pattern: Seq<char>, lines: Seq<Seq<char>>, invert: bool, k: int)
    requires
        0 <= k <= lines.len(),
        lines.len() <= usize::MAX,
    ensures
        ({
            let r = regex_results_from(pattern, lines, invert, k);
            &&& forall|t: int| 0 <= t < r.len() ==> {
                &&& k + 1 <= #[trigger] r[t].line_number <= lines.len()
                &&& r[t].line == lines[r[t].line_number - 1]
                &&& regex_selects(pattern, r[t].line, invert)
            }
            &&& forall|t: int, u: int| 0 <= t < u < r.len() ==> r[t].line_number < r[u].line_number
            &&& forall|i: int| k <= i < lines.len() && regex_selects(pattern, #[trigger] lines[i], invert)
                ==> exists|t: int| 0 <= t < r.len() && r[t].line_number == i + 1
        }),
        regex_results_from(pattern, lines, false, k).len() + regex_results_from(pattern, lines, true, k).len()
            == lines.len() - k,
    decreases lines.len() - k,
{
    if k < lines.len() {
        lemma_regex_results_from(pattern, lines, invert, k + 1);
        lemma_regex_results_from(pattern, lines, !invert, k + 1);
        let r = regex_results_from(pattern, lines, invert, k);
        let rest = regex_results_from(pattern, lines, invert, k + 1);
        if regex_selects(pattern, lines[k], invert) {
            assert forall|t: int| 0 <= t < r.len() implies {
                &&& k + 1 <= #[trigger] r[t].line_number <= lines.len()
                &&& r[t].line == lines[r[t].line_number - 1]
                &&& regex_selects(pattern, r[t].line, invert)
            } by {
                if t > 0 {
                    assert(r[t] == rest[t - 1]);
                }
            }
            assert forall|t: int, u: int| 0 <= t < u < r.len() implies r[t].line_number < r[u].line_number by {
                assert(r[u] == rest[u - 1]);
                if t > 0 {
                    assert(r[t] == rest[t - 1]);
                }
            }
            assert forall|i: int| k <= i < lines.len() && regex_selects(pattern, #[trigger] lines[i], invert)
                implies exists|t: int| 0 <= t < r.len() && r[t].line_number == i + 1 by {
                if i == k {
                    assert(r[0].line_number == i + 1);
                } else {
                    let t = choose|t: int| 0 <= t < rest.len() && rest[t].line_number == i + 1;
                    assert(r[t + 1] == rest[t]);
                }
            }
        }
    }
}

/// A regex search numbers its results by line, in increasing order, each result
/// being the selected line it names; every selected line has a result.
pub proof fn law_regex_results_are_the_selected_lines(pattern: Seq<char>, lines: Seq<Seq<char>>, invert: bool)
    requires
        lines.len() <= usize::MAX,
    ensures
        ({
            let r = regex_results(pattern, lines, invert);
            &&& forall|t: int| 0 <= t < r.len() ==> {
                &&& 1 <= #[trigger] r[t].line_number <= lines.len()
                &&& r[t].line == lines[r[t].line_number - 1]
                &&& regex_selects(pattern, r[t].line, invert)
            }
            &&& forall|t: int, u: int| 0 <= t < u < r.len() ==> r[t].line_number < r[u].line_number
            &&& forall|i: int| 0 <= i < lines.len() && regex_selects(pattern, #[trigger] lines[i], invert)
                ==> exists|t: int| 0 <= t < r.len() && r[t].line_number == i + 1
        }),
{
    lemma_regex_results_from(pattern, lines, invert, 0);
}

/// Whether some result is numbered `ln`.
pub open spec fn has_result_at(r: Seq<MatchView>, ln: int) -> bool {
    exists|t: int| 0 <= t < r.len() && r[t].line_number == ln
}

/// Exactly one of the plain and the inverted regex search has a result for line
/// index `i`.
pub open spec fn exactly_one_has(pattern: Seq<char>, lines: Seq<Seq<char>>, i: int) -> bool {
    has_result_at(regex_results(pattern, lines, false), i + 1)
        != has_result_at(regex_results(pattern, lines, true), i + 1)
}

/// Inverting a regex search selects the other lines: together the two searches
/// have exactly one result per line.
pub proof fn law_invert_complements(pattern: Seq<char>, lines: Seq<Seq<char>>)
    requires
        lines.len() <= usize::MAX,
    ensures
        regex_results(pattern, lines, false).len() + regex_results(pattern, lines, true).len() == lines.len(),
        forall|i: int| 0 <= i < lines.len() ==> #[trigger] exactly_one_has(pattern, lines, i),
{
    lemma_regex_results_from(pattern, lines, false, 0);
    lemma_regex_results_from(pattern, lines, true, 0);
    let a = regex_results(pattern, lines, false);
    let b = regex_results(pattern, lines, true);
    assert forall|i: int| 0 <= i < lines.len() implies #[trigger] exactly_one_has(pattern, lines, i) by {
        if regex_matches(pattern, lines[i]) {
            assert(regex_selects(pattern, lines[i], false));
            assert(has_result_at(a, i + 1));
            if has_result_at(b, i + 1) {
                let t = choose|t: int| 0 <= t < b.len() && b[t].line_number == i + 1;
                assert(1 <= b[t].line_number);
                assert(regex_selects(pattern, b[t].line, true));
                assert(b[t].line == lines[i]);
            }
            assert(!has_result_at(b, i + 1));
        } else {
            assert(regex_selects(pattern, lines[i], true));
            assert(has_result_at(b, i + 1));
            if has_result_at(a, i + 1) {
                let t = choose|t: int| 0 <= t < a.len() && a[t].line_number == i + 1;
                assert(1 <= a[t].line_number);
                assert(regex_selects(pattern, a[t].line, false));
                assert(a[t].line == lines[i]);
            }
            assert(!has_result_at(a, i + 1));
        }
    }
}

/// The results of a literal search: each result contains the query (or, with
/// `invert`, does not), and every such line has a result.
pub open spec fn literal_selection(query: Seq<char>, lines: Seq<Seq<char>>, invert: bool, r: Seq<MatchView>) -> bool {
    &&& forall|t: int| 0 <= t < r.len() ==> contains_chars(#[trigger] r[t].line, query) != invert
    &&& forall|i: int| 0 <= i < lines.len() && contains_chars(#[trigger] lines[i], query) != invert
        ==> has_result_at(r, i + 1)
}

pub(crate) proof fn lemma_literal_selection(query: Seq<char>, lines: Seq<Seq<char>>, invert: bool)
    requires
        forall|h: Seq<char>| #[trigger] regex_matches(regex_escaped(query), h) <==> contains_chars(h, query),
        lines.len() <= usize::MAX,
    ensures
        literal_selection(query, lines, invert, regex_results(full_pattern(regex_escaped(query), false, false), lines, invert)),
{
    let p = full_pattern(regex_escaped(query), false, false);
    assert(p == regex_escaped(query));
    law_regex_results_are_the_selected_lines(p, lines, invert);
    let r = regex_results(p, lines, invert);
    assert forall|t: int| 0 <= t < r.len() implies contains_chars(#[trigger] r[t].line, query) != invert by {
        assert(1 <= r[t].line_number);
        assert(regex_selects(p, r[t].line, invert));
        assert(regex_matches(regex_escaped(query), r[t].line) <==> contains_chars(r[t].line, query));
    }
    assert forall|i: int| 0 <= i < lines.len() && contains_chars(#[trigger] lines[i], query) != invert
        implies has_result_at(r, i + 1) by {
        assert(regex_matches(regex_escaped(query), lines[i]) <==> contains_chars(lines[i], query));
        assert(regex_selects(p, lines[i], invert));
    }
}

proof fn lemma_unhit_results_from(lines: Seq<Seq<char>>, hits: Seq<(usize, Similarity)>, k: int)
    requires
        0 <= k <= lines.len(),
        lines.len() <= usize::MAX,
    ensures
        ({
            let r = unhit_results_from(lines, hits, k);
            &&& forall|t: int| 0 <= t < r.len() ==> {
                &&& k + 1 <= #[trigger] r[t].line_number <= lines.len()
                &&& r[t].line == lines[r[t].line_number - 1]
                &&& r[t].column == 1
                &&& !is_hit(hits, r[t].line_number - 1)
            }
            &&& forall|t: int, u: int| 0 <= t < u < r.len() ==> r[t].line_number < r[u].line_number
            &&& forall|i: int| k <= i < lines.len() && !is_hit(hits, i) ==> #[trigger] has_result_at(r, i + 1)
        }),
    decreases lines.len() - k,
{
    if k < lines.len() {
        lemma_unhit_results_from(lines, hits, k + 1);
        let r = unhit_results_from(lines, hits, k);
        let rest = unhit_results_from(lines, hits, k + 1);
        if !is_hit(hits, k) {
            let entry = MatchView { line_number: (k + 1) as usize, line: lines[k], column: 1, similarity: Some(zero_score()) };
            assert(r == seq![entry] + rest);
            assert forall|t: int| 0 <= t < r.len() implies {
                &&& k + 1 <= #[trigger] r[t].line_number <= lines.len()
                &&& r[t].line == lines[r[t].line_number - 1]
                &&& r[t].column == 1
                &&& !is_hit(hits, r[t].line_number - 1)
            } by {
                if t > 0 {
                    assert(r[t] == rest[t - 1]);
                }
            }
            assert forall|t: int, u: int| 0 <= t < u < r.len() implies r[t].line_number < r[u].line_number by {
                assert(r[u] == rest[u - 1]);
                if t > 0 {
                    assert(r[t] == rest[t - 1]);
                }
            }
            assert forall|i: int| k <= i < lines.len() && !is_hit(hits, i) implies #[trigger] has_result_at(r, i + 1) by {
                if i == k {
                    assert(r[0].line_number == i + 1);
                } else {
                    assert(has_result_at(rest, i + 1));
                    let t = choose|t: int| 0 <= t < rest.len() && rest[t].line_number == i + 1;
                    assert(r[t + 1] == rest[t]);
                }
            }
        } else {
            assert forall|i: int| k <= i < lines.len() && !is_hit(hits, i) implies #[trigger] has_result_at(r, i + 1) by {
                assert(i != k);
                assert(has_result_at(rest, i + 1));
            }
        }
    }
}

/// Inverting a similarity search over `lines` selects the other lines: given
/// hits on lines of `lines`, each line has a result in exactly one of the two
/// searches. Every result of either is the line it names, in column 1; the
/// inverted results come in line order, and so do the others when the hits do.
pub proof fn law_semantic_lines_invert_complements(lines: Seq<Seq<char>>, hits: Seq<(usize, Similarity)>)
    requires
        lines.len() <= usize::MAX,
        forall|j: int| 0 <= j < hits.len() ==> #[trigger] hits[j].0 < lines.len(),
    ensures
        ({
            let a = hits.map_values(|h: (usize, Similarity)| hit_result(lines, h));
            let b = unhit_results_from(lines, hits, 0);
            &&& forall|i: int| 0 <= i < lines.len() ==> #[trigger] has_result_at(a, i + 1) != has_result_at(b, i + 1)
            &&& forall|t: int| 0 <= t < a.len() ==> {
                &&& 1 <= (#[trigger] a[t]).line_number <= lines.len()
                &&& a[t].line == lines[a[t].line_number - 1]
                &&& a[t].column == 1
            }
            &&& forall|t: int| 0 <= t < b.len() ==> {
                &&& 1 <= (#[trigger] b[t]).line_number <= lines.len()
                &&& b[t].line == lines[b[t].line_number - 1]
                &&& b[t].column == 1
            }
            &&& forall|t: int, u: int| 0 <= t < u < b.len() ==> b[t].line_number < b[u].line_number
            &&& (forall|t: int, u: int| 0 <= t < u < hits.len() ==> hits[t].0 < hits[u].0)
                ==> forall|t: int, u: int| 0 <= t < u < a.len() ==> a[t].line_number < a[u].line_number
        }),
{
    lemma_unhit_results_from(lines, hits, 0);
    let a = hits.map_values(|h: (usize, Similarity)| hit_result(lines, h));
    let b = unhit_results_from(lines, hits, 0);
    assert forall|t: int| 0 <= t < a.len() implies {
        &&& 1 <= (#[trigger] a[t]).line_number <= lines.len()
        &&& a[t].line == lines[a[t].line_number - 1]
        &&& a[t].column == 1
    } by {
        assert(hits[t].0 < lines.len());
    }
    assert forall|i: int| 0 <= i < lines.len() implies #[trigger] has_result_at(a, i + 1) != has_result_at(b, i + 1) by {
        if is_hit(hits, i) {
            let j = choose|j: int| 0 <= j < hits.len() && #[trigger] hits[j].0 == i;
            assert(a[j].line_number == i + 1);
            if has_result_at(b, i + 1) {
                let t = choose|t: int| 0 <= t < b.len() && b[t].line_number == i + 1;
                assert(!is_hit(hits, b[t].line_number - 1));
            }
        } else {
            if has_result_at(a, i + 1) {
                let t = choose|t: int| 0 <= t < a.len() && a[t].line_number == i + 1;
                assert(hits[t].0 < lines.len());
                assert(hits[t].0 == i);
            }
        }
    }
}

} // verus!
