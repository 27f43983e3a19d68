//! What is printed for matches, counts, file names and separators.

use vstd::prelude::*;
use crate::text::{decimal, usize_to_decimal};
use crate::matcher::{SearchMatch, MatchView, Similarity};

verus! {

/// When to color the output.
#[derive(Clone, Copy, PartialEq, Eq, Structural, Debug)]
pub enum ColorWhen {
    Auto,
    Always,
    Never,
}

/// How a piece of output is colored.
#[derive(Clone, Copy, PartialEq, Eq, Structural, Debug)]
pub enum Style {
    /// Uncolored.
    Plain,
    /// Bold green: a file name before a line.
    FileName,
    /// Bold blue: a line number.
    LineNumber,
    /// Bold yellow: a similarity score.
    Score,
    /// Bold cyan: the separator between files.
    Separator,
}

/// A piece of output text with its style.
pub struct Styled {
    pub text: String,
    pub style: Style,
}

impl View for Styled {
    type V = (Seq<char>, Style);

    open spec fn view(&self) -> (Seq<char>, Style) {
        (self.text@, self.style)
    }
}

/// The views of a sequence of styled pieces.
pub open spec fn styled_views(s: Seq<Styled>) -> Seq<(Seq<char>, Style)> {
    s.map_values(|x: Styled| x@)
}

/// The text of a sequence of pieces, without styles.
pub open spec fn plain_text(s: Seq<(Seq<char>, Style)>) -> Seq<char>
    decreases s.len(),
{
    if s.len() == 0 {
        seq![]
    } else {
        s[0].0 + plain_text(s.drop_first())
    }
}

/// `s` followed by `suffix`.
fn concat_str(s: &str, suffix: &str) -> (res: String)
    ensures
        res@ == s@ + suffix@,
{
    let mut r = String::from_str(s);
    r.append(suffix);
    r
}

/// The text `s` followed by a colon.
fn with_colon(s: &str) -> (res: String)
    ensures
        res@ == s@.push(':'),
{
    let r = concat_str(s, ":");
    proof {
        reveal_strlit(":");
    }
    assert(r@ =~= s@.push(':'));
    r
}

/// The text `s` followed by a newline.
fn with_newline(s: &str) -> (res: String)
    ensures
        res@ == s@.push('\n'),
{
    let r = concat_str(s, "\n");
    proof {
        reveal_strlit("\n");
    }
    assert(r@ =~= s@.push('\n'));
    r
}

/// The state of the output: what is shown, and whether colors are used.
pub struct Printer {
    pub color: bool,
    pub show_filename: bool,
    pub show_line_number: bool,
    pub filename: Option<String>,
    pub count_mode: bool,
    pub files_with_matches_mode: bool,
}

/// Whether output is colored: always, never, or when standard output is a terminal.
pub open spec fn colors_enabled(color_when: ColorWhen, stdout_is_terminal: bool) -> bool {
    match color_when {
        ColorWhen::Always => true,
        ColorWhen::Never => false,
        ColorWhen::Auto => stdout_is_terminal,
    }
}

/// The file name piece before a line, when one is set and shown.
pub open spec fn filename_prefix_spec(p: Printer) -> Seq<(Seq<char>, Style)> {
    match p.filename {
        Some(name) => if p.show_filename { seq![(name@.push(':'), Style::FileName)] } else { seq![] },
        None => seq![],
    }
}

/// The line number piece, when line numbers are shown.
pub open spec fn line_number_spec(p: Printer, n: usize) -> Seq<(Seq<char>, Style)> {
    if p.show_line_number { seq![(decimal(n as nat).push(':'), Style::LineNumber)] } else { seq![] }
}

/// The score piece.
pub open spec fn similarity_spec(text: Seq<char>) -> Seq<(Seq<char>, Style)> {
    seq![(text.push(':'), Style::Score)]
}

/// What is printed for one result: nothing in count or file-list mode, else
/// file name, line number, score (each when present), then the line.
pub open spec fn match_spec(p: Printer, m: MatchView) -> Seq<(Seq<char>, Style)> {
    if p.count_mode || p.files_with_matches_mode {
        seq![]
    } else {
        filename_prefix_spec(p) + line_number_spec(p, m.line_number) + (match m.similarity {
            Some(s) => similarity_spec(s.1),
            None => seq![],
        }) + seq![(m.line.push('\n'), Style::Plain)]
    }
}

/// The separator between the results of two files, when file names are shown.
pub open spec fn separator_spec(p: Printer) -> Seq<(Seq<char>, Style)> {
    if p.show_filename { seq![(seq!['-', '-', '\n'], Style::Separator)] } else { seq![] }
}

/// The line naming a file that has matches.
pub open spec fn filename_only_spec(name: Seq<char>) -> Seq<(Seq<char>, Style)> {
    seq![(name.push('\n'), Style::Plain)]
}

/// The count of results of a file, after its name when file names are shown.
pub open spec fn count_spec(p: Printer, count: usize, path: Seq<char>) -> Seq<(Seq<char>, Style)> {
    (if p.show_filename { seq![(path.push(':'), Style::Plain)] } else { seq![] })
        + seq![(decimal(count as nat).push('\n'), Style::Plain)]
}

impl Printer {
    /// A printer with no file name set; colors as `color_when` asks, `Auto`
    /// meaning colors exactly when standard output is a terminal.
    pub fn new(
        color_when: ColorWhen,
        show_filename: bool,
        show_line_number: bool,
        count_mode: bool,
        files_with_matches_mode: bool,
        stdout_is_terminal: bool,
    ) -> (res: Self)
        ensures
            res.color == colors_enabled(color_when, stdout_is_terminal),
            res.show_filename == show_filename,
            res.show_line_number == show_line_number,
            res.filename is None,
            res.count_mode == count_mode,
            res.files_with_matches_mode == files_with_matches_mode,
    {
        let color = match color_when {
            ColorWhen::Never => false,
            ColorWhen::Always => true,
            ColorWhen::Auto => stdout_is_terminal,
        };
        Printer { color, show_filename, show_line_number, filename: None, count_mode, files_with_matches_mode }
    }

    /// Sets the file name printed before lines.
    pub fn set_filename(&mut self, name: String)
        ensures
            final(self).filename == Some(name),
            final(self).color == old(self).color,
            final(self).show_filename == old(self).show_filename,
            final(self).show_line_number == old(self).show_line_number,
            final(self).count_mode == old(self).count_mode,
            final(self).files_with_matches_mode == old(self).files_with_matches_mode,
    {
        self.filename = Some(name);
    }

    /// Turns count mode on or off.
    pub fn set_count_mode(&mut self, v: bool)
        ensures
            *final(self) == (Printer { count_mode: v, ..*old(self) }),
    {
        self.count_mode = v;
    }

    /// Turns file-list mode on or off.
    pub fn set_files_with_matches_mode(&mut self, v: bool)
        ensures
            *final(self) == (Printer { files_with_matches_mode: v, ..*old(self) }),
    {
        self.files_with_matches_mode = v;
    }

    fn print_filename_prefix(&self) -> (res: Vec<Styled>)
        ensures
            styled_views(res@) == filename_prefix_spec(*self),
    {
        let mut out: Vec<Styled> = Vec::new();
        if let Some(name) = &self.filename {
            if self.show_filename {
                out.push(Styled { text: with_colon(name.as_str()), style: Style::FileName });
            }
        }
        assert(styled_views(out@) =~= filename_prefix_spec(*self));
        out
    }

    fn print_line_number(&self, line_num: usize) -> (res: Vec<Styled>)
        ensures
            styled_views(res@) == line_number_spec(*self, line_num),
    {
        let mut out: Vec<Styled> = Vec::new();
        if self.show_line_number {
            let digits = usize_to_decimal(line_num);
            out.push(Styled { text: with_colon(digits.as_str()), style: Style::LineNumber });
        }
        assert(styled_views(out@) =~= line_number_spec(*self, line_num));
        out
    }

    fn print_similarity(&self, sim: &Similarity) -> (res: Vec<Styled>)
        ensures
            styled_views(res@) == similarity_spec(sim.text@),
    {
        let mut out: Vec<Styled> = Vec::new();
        out.push(Styled { text: with_colon(sim.text.as_str()), style: Style::Score });
        assert(styled_views(out@) =~= similarity_spec(sim.text@));
        out
    }

    /// What is printed for one result.
    pub fn print_match(&self, m: &SearchMatch) -> (res: Vec<Styled>)
        ensures
            styled_views(res@) == match_spec(*self, m@),
    {
        if self.count_mode || self.files_with_matches_mode {
            let out: Vec<Styled> = Vec::new();
            assert(styled_views(out@) =~= seq![]);
            return out;
        }
        let mut out = self.print_filename_prefix();
        let mut ln = self.print_line_number(m.line_number);
        let ghost a = styled_views(out@);
        let ghost b = styled_views(ln@);
        out.append(&mut ln);
        assert(styled_views(out@) =~= a + b);
        if let Some(sim) = &m.similarity {
            let mut sv = self.print_similarity(sim);
            let ghost c = styled_views(out@);
            let ghost d = styled_views(sv@);
            out.append(&mut sv);
            assert(styled_views(out@) =~= c + d);
        }
        let ghost e = styled_views(out@);
        out.push(Styled { text: with_newline(m.line.as_str()), style: Style::Plain });
        assert(styled_views(out@) =~= e.push((m.line@.push('\n'), Style::Plain)));
        assert(styled_views(out@) =~= match_spec(*self, m@));
        out
    }

    /// The separator printed between the results of two files.
    pub fn print_separator(&self) -> (res: Vec<Styled>)
        ensures
            styled_views(res@) == separator_spec(*self),
    {
        let mut out: Vec<Styled> = Vec::new();
        if self.show_filename {
            let text = String::from_str("--\n");
            proof {
                reveal_strlit("--\n");
            }
            assert(text@ =~= seq!['-', '-', '\n']);
            out.push(Styled { text, style: Style::Separator });
        }
        assert(styled_views(out@) =~= separator_spec(*self));
        out
    }

    /// The line naming a file with matches.
    pub fn print_filename_only(&self, name: &str) -> (res: Vec<Styled>)
        ensures
            styled_views(res@) == filename_only_spec(name@),
    {
        let mut out: Vec<Styled> = Vec::new();
        out.push(Styled { text: with_newline(name), style: Style::Plain });
        assert(styled_views(out@) =~= filename_only_spec(name@));
        out
    }

    /// The count of results of a file.
    pub fn print_count(&self, count: usize, path: &str) -> (res: Vec<Styled>)
        ensures
            styled_views(res@) == count_spec(*self, count, path@),
    {
        let mut out: Vec<Styled> = Vec::new();
        if self.show_filename {
            out.push(Styled { text: with_colon(path), style: Style::Plain });
        }
        let digits = usize_to_decimal(count);
        out.push(Styled { text: with_newline(digits.as_str()), style: Style::Plain });
        assert(styled_views(out@) =~= count_spec(*self, count, path@));
        out
    }
}

/// The characters of an optional string slice.
pub open spec fn opt_str_view(o: Option<&str>) -> Option<Seq<char>> {
    match o {
        Some(s) => Some(s@),
        None => None,
    }
}

/// One result as a single line of text: file name (when shown and given), line
/// number (when shown) and score (when present), each followed by a colon, then
/// the line.
pub open spec fn format_spec(m: MatchView, show_filename: bool, filename: Option<Seq<char>>, show_line_number: bool) -> Seq<char> {
    (match filename {
        Some(f) => if show_filename { f.push(':') } else { seq![] },
        None => seq![],
    }) + (if show_line_number { decimal(m.line_number as nat).push(':') } else { seq![] }) + (match m.similarity {
        Some(s) => s.1.push(':'),
        None => seq![],
    }) + m.line
}

/// One result as a single line of text.
pub fn format_match_output(m: &SearchMatch, show_filename: bool, filename: Option<&str>, show_line_number: bool) -> (res: String)
    ensures
        res@ == format_spec(m@, show_filename, opt_str_view(filename), show_line_number),
{
    let mut out = String::new();
    if show_filename {
        if let Some(fname) = filename {
            out.append(fname);
            out.append(":");
        }
    }
    let ghost a = out@;
    if show_line_number {
        let digits = usize_to_decimal(m.line_number);
        out.append(digits.as_str());
        out.append(":");
    }
    let ghost b = out@;
    if let Some(sim) = &m.similarity {
        out.append(sim.text.as_str());
        out.append(":");
    }
    let ghost c = out@;
    out.append(m.line.as_str());
    proof {
        reveal_strlit(":");
        assert(a =~= (match opt_str_view(filename) {
            Some(f) => if show_filename { f.push(':') } else { seq![] },
            None => seq![],
        }));
        assert(b =~= a + (if show_line_number { decimal(m.line_number as nat).push(':') } else { seq![] }));
        assert(c =~= b + (match m@.similarity {
            Some(s) => s.1.push(':'),
            None => seq![],
        }));
    }
    assert(out@ =~= format_spec(m@, show_filename, opt_str_view(filename), show_line_number));
    out
}

/// The text of concatenated pieces is the concatenated text.
pub proof fn lemma_plain_text_concat(a: Seq<(Seq<char>, Style)>, b: Seq<(Seq<char>, Style)>)
    ensures
        plain_text(a + b) == plain_text(a) + plain_text(b),
    decreases a.len(),
{
    if a.len() == 0 {
        assert(a + b =~= b);
        assert(plain_text(a) + plain_text(b) =~= plain_text(b));
    } else {
        lemma_plain_text_concat(a.drop_first(), b);
        assert((a + b).drop_first() =~= a.drop_first() + b);
        assert(plain_text(a + b) =~= a[0].0 + plain_text(a.drop_first() + b));
    }
}

proof fn lemma_plain_text_single(x: (Seq<char>, Style))
    ensures
        plain_text(seq![x]) == x.0,
{
    assert(seq![x].drop_first() =~= Seq::<(Seq<char>, Style)>::empty());
    assert(plain_text(seq![x]) =~= x.0 + plain_text(Seq::<(Seq<char>, Style)>::empty()));
}

/// The characters of a printer's file name, if it has one.
pub open spec fn filename_view(p: Printer) -> Option<Seq<char>> {
    match p.filename {
        Some(f) => Some(f@),
        None => None,
    }
}

/// Outside count and file-list mode, the text a printer prints for a result is
/// `format_match_output` of it, with the same settings, and a newline.
pub proof fn law_printed_match_is_formatted_match(p: Printer, m: MatchView)
    requires
        !p.count_mode,
        !p.files_with_matches_mode,
    ensures
        plain_text(match_spec(p, m)) == format_spec(m, p.show_filename, filename_view(p), p.show_line_number).push('\n'),
{
    let a = filename_prefix_spec(p);
    let b = line_number_spec(p, m.line_number);
    let c = match m.similarity {
        Some(sc) => similarity_spec(sc.1),
        None => seq![],
    };
    let d = seq![(m.line.push('\n'), Style::Plain)];
    lemma_plain_text_concat(a + b + c, d);
    lemma_plain_text_concat(a + b, c);
    lemma_plain_text_concat(a, b);
    if a.len() == 1 {
        lemma_plain_text_single(a[0]);
        assert(a == seq![a[0]]);
    }
    if b.len() == 1 {
        lemma_plain_text_single(b[0]);
        assert(b == seq![b[0]]);
    }
    if c.len() == 1 {
        lemma_plain_text_single(c[0]);
        assert(c == seq![c[0]]);
    }
    lemma_plain_text_single(d[0]);
    assert(plain_text(Seq::<(Seq<char>, Style)>::empty()) == Seq::<char>::empty());
    assert(plain_text(match_spec(p, m)) =~= format_spec(m, p.show_filename, filename_view(p), p.show_line_number).push('\n'));
}

} // verus!
