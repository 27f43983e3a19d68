//! Plain text utilities: decimal rendering, whitespace, line splitting.

use vstd::prelude::*;

verus! {

/// The decimal digit character for `d < 10`.
pub open spec fn digit_char(d: nat) -> char {
    ((48 + d) as u32) as char
}

/// The decimal rendering of `n`, most significant digit first, no leading zeros.
pub open spec fn decimal(n: nat) -> Seq<char>
    decreases n,
{
    if n < 10 {
        seq![digit_char(n)]
    } else {
        decimal(n / 10).push(digit_char(n % 10))
    }
}

/// Appends one character to a string.
#[verifier::external_body]
pub(crate) fn push_char(s: &mut String, c: char)
    ensures
        final(s)@ == old(s)@.push(c),
{
    s.push(c);
}

/// Renders `n` in decimal, as `format!("{}", n)` does.
pub fn usize_to_decimal(n: usize) -> (res: String)
    ensures
        res@ == decimal(n as nat),
{
    let mut digits: Vec<char> = Vec::new();
    let mut m: usize = n;
    loop
        invariant_except_break
            decimal(n as nat) == decimal(m as nat) + digits@.reverse(),
        ensures
            decimal(n as nat) == digits@.reverse(),
        decreases m,
    {
        let d: usize = m % 10;
        let c: char = ((48 + d) as u8) as char;
        assert(c == digit_char(d as nat));
        let ghost before = digits@;
        digits.push(c);
        assert(digits@.reverse() =~= seq![c] + before.reverse());
        if m < 10 {
            break;
        }
        m = m / 10;
    }
    let mut res = String::new();
    let mut i: usize = digits.len();
    while i > 0
        invariant
            i <= digits.len(),
            res@ == digits@.subrange(i as int, digits.len() as int).reverse(),
        decreases i,
    {
        i = i - 1;
        push_char(&mut res, digits[i]);
    }
    res
}


/// The character views of a sequence of strings.
pub open spec fn views(v: Seq<String>) -> Seq<Seq<char>> {
    v.map_values(|s: String| s@)
}

/// `line` without one trailing carriage return.
pub open spec fn strip_cr(line: Seq<char>) -> Seq<char> {
    if line.len() > 0 && line.last() == '\r' {
        line.drop_last()
    } else {
        line
    }
}

/// The lines of `cur + rest`, where `cur` is the part of the current line read
/// so far: a line ends at each `'\n'` (dropping a `'\r'` just before it), and a
/// final line without a terminator counts only when it is not empty.
pub open spec fn lines_from(cur: Seq<char>, rest: Seq<char>) -> Seq<Seq<char>>
    decreases rest.len(),
{
    if rest.len() == 0 {
        if cur.len() == 0 {
            seq![]
        } else {
            seq![cur]
        }
    } else if rest[0] == '\n' {
        seq![strip_cr(cur)] + lines_from(Seq::empty(), rest.drop_first())
    } else {
        lines_from(cur.push(rest[0]), rest.drop_first())
    }
}

/// The lines of `text`, as `str::lines` yields them.
pub open spec fn spec_lines(text: Seq<char>) -> Seq<Seq<char>> {
    lines_from(Seq::empty(), text)
}

/// The string made of `cs[0..end]`.
pub fn string_from_chars(cs: &Vec<char>, end: usize) -> (res: String)
    requires
        end <= cs.len(),
    ensures
        res@ == cs@.take(end as int),
{
    let mut res = String::new();
    let mut i: usize = 0;
    while i < end
        invariant
            i <= end <= cs.len(),
            res@ == cs@.take(i as int),
        decreases end - i,
    {
        push_char(&mut res, cs[i]);
        assert(cs@.take(i + 1) =~= cs@.take(i as int).push(cs@[i as int]));
        i = i + 1;
    }
    res
}

/// Splits `text` into lines as `str::lines` does.
pub fn split_lines(text: &str) -> (res: Vec<String>)
    ensures
        views(res@) == spec_lines(text@),
{
    broadcast use vstd::string::group_string_axioms;

    let mut out: Vec<String> = Vec::new();
    let mut cur: Vec<char> = Vec::new();
    assert(views(out@) + lines_from(cur@, text@.skip(0)) =~= spec_lines(text@)) by {
        assert(text@.skip(0) =~= text@);
        assert(cur@ =~= Seq::<char>::empty());
    }
    for c in it: text.chars()
        invariant
            it.seq() == text@,
            views(out@) + lines_from(cur@, text@.skip(it.index() as int)) == spec_lines(text@),
    {
        let ghost rest = text@.skip(it.index() as int);
        assert(rest[0] == c);
        assert(rest.drop_first() =~= text@.skip(it.index() + 1));
        if c == '\n' {
            let n = cur.len();
            let end: usize = if n > 0 && cur[n - 1] == '\r' { n - 1 } else { n };
            let line = string_from_chars(&cur, end);
            assert(line@ == strip_cr(cur@));
            let ghost before = out@;
            out.push(line);
            assert(views(out@) =~= views(before).push(line@));
            cur = Vec::new();
        } else {
            cur.push(c);
        }
    }
    assert(text@.skip(text@.len() as int) =~= Seq::<char>::empty());
    let n = cur.len();
    if n > 0 {
        let line = string_from_chars(&cur, n);
        assert(cur@.take(n as int) =~= cur@);
        let ghost before = out@;
        out.push(line);
        assert(views(out@) =~= views(before).push(line@));
    } else {
        assert(views(out@) + seq![] =~= views(out@));
    }
    out
}


/// Whether `c` has the Unicode White_Space property (the characters that
/// `char::is_whitespace` and `str::trim` treat as whitespace).
pub open spec fn is_white_space(c: char) -> bool {
    let u = c as u32;
    (0x09 <= u <= 0x0D) || u == 0x20 || u == 0x85 || u == 0xA0 || u == 0x1680
        || (0x2000 <= u <= 0x200A) || u == 0x2028 || u == 0x2029 || u == 0x202F
        || u == 0x205F || u == 0x3000
}

/// Whether `s` is empty once whitespace is trimmed from both ends.
pub open spec fn is_blank(s: Seq<char>) -> bool {
    forall|i: int| 0 <= i < s.len() ==> #[trigger] is_white_space(s[i])
}

/// Whether `c` is whitespace.
pub fn char_is_white_space(c: char) -> (res: bool)
    ensures
        res == is_white_space(c),
{
    let u = c as u32;
    (0x09 <= u && u <= 0x0D) || u == 0x20 || u == 0x85 || u == 0xA0 || u == 0x1680
        || (0x2000 <= u && u <= 0x200A) || u == 0x2028 || u == 0x2029 || u == 0x202F
        || u == 0x205F || u == 0x3000
}

/// Whether `s.trim().is_empty()`.
pub fn line_is_blank(s: &str) -> (res: bool)
    ensures
        res == is_blank(s@),
{
    broadcast use vstd::string::group_string_axioms;

    for c in it: s.chars()
        invariant
            it.seq() == s@,
            forall|j: int| 0 <= j < it.index() ==> #[trigger] is_white_space(s@[j]),
    {
        assert(s@[it.index() as int] == c);
        if !char_is_white_space(c) {
            return false;
        }
    }
    true
}

/// The number written by a string of decimal digits.
pub open spec fn digits_value(s: Seq<char>) -> int
    decreases s.len(),
{
    if s.len() == 0 {
        0
    } else {
        digits_value(s.drop_last()) * 10 + (s.last() as u32 - 48)
    }
}

/// `decimal(n)` is made of decimal digits, has no leading zero, and reads back
/// as `n`.
pub proof fn law_decimal_reads_back(n: nat)
    ensures
        digits_value(decimal(n)) == n,
        forall|i: int| 0 <= i < decimal(n).len() ==> '0' <= #[trigger] decimal(n)[i] <= '9',
        decimal(n)[0] == '0' ==> n == 0,
    decreases n,
{
    assert(digit_char(n % 10) as u32 == 48 + n % 10);
    if n >= 10 {
        law_decimal_reads_back(n / 10);
        let d = decimal(n);
        assert(d.drop_last() =~= decimal(n / 10));
        assert(n == (n / 10) * 10 + n % 10) by (nonlinear_arith);
        assert(d[0] == decimal(n / 10)[0]);
        assert(d.last() == digit_char(n % 10));
        assert(digits_value(d) == digits_value(decimal(n / 10)) * 10 + (n % 10));
    } else {
        assert(n % 10 == n);
        assert(decimal(n).drop_last() =~= Seq::<char>::empty());
        assert(decimal(n).last() == digit_char(n));
        assert(digits_value(decimal(n)) == digits_value(Seq::<char>::empty()) * 10 + n);
    }
}

/// Each of `ls` followed by a newline, one after the other.
pub open spec fn join_terminated(ls: Seq<Seq<char>>) -> Seq<char>
    decreases ls.len(),
{
    if ls.len() == 0 {
        seq![]
    } else {
        ls[0].push('\n') + join_terminated(ls.drop_first())
    }
}

/// Whether `s` has no character `c`.
pub open spec fn lacks(s: Seq<char>, c: char) -> bool {
    forall|i: int| 0 <= i < s.len() ==> #[trigger] s[i] != c
}

proof fn lemma_lines_from_no_newline(cur: Seq<char>, rest: Seq<char>)
    requires
        lacks(cur, '\n'),
    ensures
        forall|j: int| 0 <= j < lines_from(cur, rest).len() ==> lacks(#[trigger] lines_from(cur, rest)[j], '\n'),
    decreases rest.len(),
{
    let ls = lines_from(cur, rest);
    if rest.len() == 0 {
        if cur.len() > 0 {
            assert(ls == seq![cur]);
        } else {
            assert(ls.len() == 0);
        }
    } else {
        let c = rest[0];
        let tail = rest.drop_first();
        if c == '\n' {
            lemma_lines_from_no_newline(Seq::empty(), tail);
            let rs = lines_from(Seq::<char>::empty(), tail);
            assert(ls == seq![strip_cr(cur)] + rs);
            assert(lacks(strip_cr(cur), '\n'));
            assert forall|j: int| 0 <= j < ls.len() implies lacks(#[trigger] ls[j], '\n') by {
                if j > 0 {
                    assert(ls[j] == rs[j - 1]);
                }
            }
        } else {
            assert(lacks(cur.push(c), '\n'));
            lemma_lines_from_no_newline(cur.push(c), tail);
            assert(ls == lines_from(cur.push(c), tail));
        }
    }
}

proof fn lemma_join_cons(x: Seq<char>, ys: Seq<Seq<char>>)
    ensures
        join_terminated(seq![x] + ys) == x.push('\n') + join_terminated(ys),
{
    assert((seq![x] + ys).drop_first() =~= ys);
}

proof fn lemma_lines_from_join(cur: Seq<char>, rest: Seq<char>)
    requires
        lacks(cur, '\n'),
        lacks(cur, '\r'),
        lacks(rest, '\r'),
        rest.len() == 0 ==> cur.len() == 0,
        rest.len() > 0 ==> rest.last() == '\n',
    ensures
        join_terminated(lines_from(cur, rest)) == cur + rest,
    decreases rest.len(),
{
    if rest.len() == 0 {
        assert(cur + rest =~= Seq::<char>::empty());
    } else {
        let c = rest[0];
        let tail = rest.drop_first();
        assert(lacks(tail, '\r')) by {
            assert forall|i: int| 0 <= i < tail.len() implies #[trigger] tail[i] != '\r' by {
                assert(tail[i] == rest[i + 1]);
            }
        }
        if c == '\n' {
            if tail.len() > 0 {
                assert(tail.last() == rest.last());
            }
            lemma_lines_from_join(Seq::empty(), tail);
            if cur.len() > 0 {
                assert(cur[cur.len() - 1] != '\r');
            }
            assert(strip_cr(cur) == cur);
            let rs = lines_from(Seq::<char>::empty(), tail);
            assert(lines_from(cur, rest) == seq![cur] + rs);
            lemma_join_cons(cur, rs);
            assert(cur + rest =~= cur.push('\n') + (Seq::<char>::empty() + tail));
        } else {
            assert(rest.len() > 1);
            assert(tail.last() == rest.last());
            assert(c != '\r');
            assert(lacks(cur.push(c), '\n'));
            assert(lacks(cur.push(c), '\r'));
            lemma_lines_from_join(cur.push(c), tail);
            assert(lines_from(cur, rest) == lines_from(cur.push(c), tail));
            assert(cur + rest =~= cur.push(c) + tail);
        }
    }
}

/// No line of a text holds a newline; and a text without carriage returns that
/// is empty or ends with a newline is its lines, each followed by a newline.
pub proof fn law_lines_round_trip(text: Seq<char>)
    ensures
        forall|j: int| 0 <= j < spec_lines(text).len() ==> lacks(#[trigger] spec_lines(text)[j], '\n'),
        lacks(text, '\r') && (text.len() == 0 || text.last() == '\n') ==> join_terminated(spec_lines(text)) == text,
{
    lemma_lines_from_no_newline(Seq::empty(), text);
    if lacks(text, '\r') && (text.len() == 0 || text.last() == '\n') {
        lemma_lines_from_join(Seq::empty(), text);
        assert(Seq::<char>::empty() + text =~= text);
    }
}

} // verus!
