//! Lines of text and byte widths.
//!
//! Markdown is processed line by line: `text_lines` splits at `\n` the way
//! `str::split('\n')` does, and `join_sep` is its inverse, `join("\n")`.
//! Some rules of the editor count indentation in UTF-8 bytes; `utf8_len`
//! gives that count for a sequence of characters.
use vstd::prelude::*;

use crate::text::{is_ws, leading_ws, lemma_leading_ws, trim_start};

verus! {

// ---------------------------------------------------------------------------
// Splitting and joining
// ---------------------------------------------------------------------------
/// The lines of a text, split at `\n`; the last segment is kept even when
/// empty, so a text with `n` line breaks has `n + 1` lines.
pub open spec fn text_lines(s: Seq<char>) -> Seq<Seq<char>>
    decreases s.len(),
{
    if s.len() == 0 {
        seq![Seq::<char>::empty()]
    } else {
        let prev = text_lines(s.drop_last());
        if s.last() == '\n' {
            prev.push(Seq::<char>::empty())
        } else {
            prev.update(prev.len() - 1, prev.last().push(s.last()))
        }
    }
}

pub proof fn lemma_text_lines_nonempty(x: Seq<char>)
    ensures
        text_lines(x).len() >= 1,
    decreases x.len(),
{
    if x.len() > 0 {
        lemma_text_lines_nonempty(x.drop_last());
    }
}

/// The lines joined with `\n` between them.
pub open spec fn join_sep(lines: Seq<Seq<char>>) -> Seq<char>
    decreases lines.len(),
{
    if lines.len() == 0 {
        Seq::empty()
    } else if lines.len() == 1 {
        lines[0]
    } else {
        join_sep(lines.drop_last()) + seq!['\n'] + lines.last()
    }
}

proof fn lemma_join_extend_last(ls: Seq<Seq<char>>, x: Seq<char>)
    requires
        ls.len() >= 1,
    ensures
        join_sep(ls.update(ls.len() - 1, ls.last() + x)) == join_sep(ls) + x,
{
    let u = ls.update(ls.len() - 1, ls.last() + x);
    if ls.len() == 1 {
        assert(u[0] == ls[0] + x);
    } else {
        assert(u.drop_last() =~= ls.drop_last());
        assert(u.last() == ls.last() + x);
        assert(join_sep(u) == join_sep(ls.drop_last()) + seq!['\n'] + (ls.last() + x));
        assert(join_sep(ls.drop_last()) + seq!['\n'] + (ls.last() + x) =~= join_sep(ls.drop_last())
            + seq!['\n'] + ls.last() + x);
    }
}

/// Joining the lines of a text with `\n` gives the text back.
pub proof fn law_join_split_lines(s: Seq<char>)
    ensures
        join_sep(text_lines(s)) == s,
    decreases s.len(),
{
    if s.len() > 0 {
        let prev = text_lines(s.drop_last());
        law_join_split_lines(s.drop_last());
        lemma_text_lines_nonempty(s.drop_last());
        if s.last() == '\n' {
            let p2 = prev.push(Seq::<char>::empty());
            assert(p2.drop_last() =~= prev);
            assert(join_sep(p2) == join_sep(prev) + seq!['\n'] + Seq::<char>::empty());
            assert(s.drop_last() + seq!['\n'] + Seq::<char>::empty() =~= s);
        } else {
            lemma_join_extend_last(prev, seq![s.last()]);
            assert(prev.last().push(s.last()) =~= prev.last() + seq![s.last()]);
            assert(s.drop_last() + seq![s.last()] =~= s);
        }
    } else {
        assert(text_lines(s) =~= seq![Seq::<char>::empty()]);
    }
}

/// The characters of each line.
pub open spec fn lines_view(v: Seq<Vec<char>>) -> Seq<Seq<char>> {
    v.map_values(|l: Vec<char>| l@)
}

/// Splits `s` at every `\n`.
pub fn split_lines(s: &[char]) -> (out: Vec<Vec<char>>)
    ensures
        lines_view(out@) == text_lines(s@),
{
    let mut lines: Vec<Vec<char>> = Vec::new();
    let mut cur: Vec<char> = Vec::new();
    let mut i: usize = 0;
    assert(s@.take(0) == Seq::<char>::empty());
    assert(lines_view(lines@).push(cur@) =~= seq![Seq::<char>::empty()]);
    while i < s.len()
        invariant
            i <= s.len(),
            lines_view(lines@).push(cur@) == text_lines(s@.take(i as int)),
        decreases s.len() - i,
    {
        let ghost before_lines = lines_view(lines@);
        let ghost before_cur = cur@;
        assert(s@.take(i + 1).drop_last() == s@.take(i as int));
        assert(s@.take(i + 1).last() == s@[i as int]);
        if s[i] == '\n' {
            let done = cur;
            lines.push(done);
            cur = Vec::new();
            assert(lines_view(lines@) =~= before_lines.push(before_cur));
            assert(lines_view(lines@).push(cur@) =~= before_lines.push(before_cur).push(
                Seq::<char>::empty(),
            ));
        } else {
            cur.push(s[i]);
            assert(lines_view(lines@).push(cur@) =~= before_lines.push(before_cur).update(
                before_lines.len() as int,
                before_cur.push(s@[i as int]),
            ));
        }
        i += 1;
    }
    let ghost before_lines = lines_view(lines@);
    let last = cur;
    lines.push(last);
    assert(lines_view(lines@) =~= before_lines.push(last@));
    assert(s@.take(s.len() as int) == s@);
    lines
}

/// Joins `lines[from..to]` with `\n` between them.
pub fn join_range(lines: &[Vec<char>], from: usize, to: usize) -> (out: Vec<char>)
    requires
        from <= to <= lines.len(),
    ensures
        out@ == join_sep(lines_view(lines@).subrange(from as int, to as int)),
{
    let mut out: Vec<char> = Vec::new();
    let mut k = from;
    assert(lines_view(lines@).subrange(from as int, from as int) =~= Seq::<Seq<char>>::empty());
    while k < to
        invariant
            from <= k <= to <= lines.len(),
            out@ == join_sep(lines_view(lines@).subrange(from as int, k as int)),
        decreases to - k,
    {
        let ghost sub = lines_view(lines@).subrange(from as int, k + 1);
        assert(sub.drop_last() =~= lines_view(lines@).subrange(from as int, k as int));
        assert(sub.last() == lines[k as int]@);
        if k > from {
            out.push('\n');
        } else {
            assert(sub.len() == 1);
        }
        let line = &lines[k];
        let mut j: usize = 0;
        let ghost base = out@;
        while j < line.len()
            invariant
                j <= line.len(),
                out@ == base + line@.take(j as int),
            decreases line.len() - j,
        {
            out.push(line[j]);
            j += 1;
            assert(out@ =~= base + line@.take(j as int));
        }
        assert(line@.take(line.len() as int) == line@);
        k += 1;
    }
    out
}

/// Joins all the lines with `\n` between them.
pub fn join_all(lines: &[Vec<char>]) -> (out: Vec<char>)
    ensures
        out@ == join_sep(lines_view(lines@)),
{
    let out = join_range(lines, 0, lines.len());
    assert(lines_view(lines@).subrange(0, lines.len() as int) =~= lines_view(lines@));
    out
}

// ---------------------------------------------------------------------------
// UTF-8 widths
// ---------------------------------------------------------------------------
/// Number of bytes of `c` in UTF-8 (`char::len_utf8`).
pub open spec fn utf8_width(c: char) -> nat {
    if (c as u32) < 0x80 {
        1
    } else if (c as u32) < 0x800 {
        2
    } else if (c as u32) < 0x10000 {
        3
    } else {
        4
    }
}

/// Number of bytes of `s` in UTF-8 (`str::len`).
pub open spec fn utf8_len(s: Seq<char>) -> nat
    decreases s.len(),
{
    if s.len() == 0 {
        0
    } else {
        utf8_len(s.drop_last()) + utf8_width(s.last())
    }
}

/// Bytes of leading whitespace: `line.len() - line.trim_start().len()`.
pub open spec fn indent_bytes(line: Seq<char>) -> nat {
    utf8_len(line.take(leading_ws(line) as int))
}

pub fn char_width(c: char) -> (n: usize)
    ensures
        n == utf8_width(c),
{
    let code = c as u32;
    if code < 0x80 {
        1
    } else if code < 0x800 {
        2
    } else if code < 0x10000 {
        3
    } else {
        4
    }
}

/// Is the leading whitespace of `line` more than `limit` bytes long?
pub fn indent_exceeds(line: &[char], limit: usize) -> (r: bool)
    ensures
        r == (indent_bytes(line@) > limit),
{
    proof {
        lemma_leading_ws(line@);
    }
    let ghost n = leading_ws(line@) as int;
    let mut i: usize = 0;
    let mut width: usize = 0;
    assert(line@.take(0) =~= Seq::<char>::empty());
    while i < line.len() && is_ws_exec(line[i])
        invariant
            i <= line.len(),
            i <= n,
            n == leading_ws(line@),
            n <= line.len(),
            forall|j: int| 0 <= j < n ==> is_ws(#[trigger] line@[j]),
            n < line.len() ==> !is_ws(line@[n]),
            width == utf8_len(line@.take(i as int)),
            width <= limit,
        decreases line.len() - i,
    {
        assert(line@.take(i + 1).drop_last() == line@.take(i as int));
        let w = char_width(line[i]);
        if w > limit - width {
            proof {
                assert(i < n);
                assert(line@.take(i + 1).last() == line@[i as int]);
                assert(utf8_len(line@.take(i + 1)) == width + w);
                lemma_utf8_len_prefix_mono(line@, i + 1, n);
                assert(indent_bytes(line@) == utf8_len(line@.take(n)));
                assert(utf8_len(line@.take(n)) > limit);
            }
            return true;
        }
        width = width + w;
        i += 1;
    }
    assert(i == n);
    false
}

fn is_ws_exec(c: char) -> (r: bool)
    ensures
        r == is_ws(c),
{
    crate::text::is_whitespace(c)
}

/// The byte length of a prefix grows with the prefix.
pub proof fn lemma_utf8_len_prefix_mono(s: Seq<char>, a: int, b: int)
    requires
        0 <= a <= b <= s.len(),
    ensures
        utf8_len(s.take(a)) <= utf8_len(s.take(b)),
    decreases b - a,
{
    if a < b {
        lemma_utf8_len_prefix_mono(s, a, b - 1);
        assert(s.take(b).drop_last() == s.take(b - 1));
    }
}

/// The characters left after dropping the first `b` bytes of `s`, when `b`
/// falls on a character boundary (`&s[b..]` in Rust).
pub open spec fn drop_bytes(s: Seq<char>, b: int) -> Option<Seq<char>>
    decreases s.len(),
{
    if b == 0 {
        Some(s)
    } else if b < 0 || s.len() == 0 || utf8_width(s[0]) > b {
        None
    } else {
        drop_bytes(s.drop_first(), b - utf8_width(s[0]))
    }
}

/// Finds how many characters make up the first `b` bytes of `s`.
pub fn drop_bytes_count(s: &[char], b: usize) -> (r: Option<usize>)
    ensures
        match (r, drop_bytes(s@, b as int)) {
            (Some(k), Some(rest)) => k <= s.len() && rest == s@.skip(k as int),
            (None, None) => true,
            _ => false,
        },
        r matches Some(k) ==> (b > 0 ==> k > 0),
{
    let mut k: usize = 0;
    let mut left = b;
    assert(s@.skip(0) == s@);
    while left > 0
        invariant
            k <= s.len(),
            left <= b,
            left < b ==> k > 0,
            drop_bytes(s@, b as int) == drop_bytes(s@.skip(k as int), left as int),
        decreases left,
    {
        if k >= s.len() {
            return None;
        }
        let w = char_width(s[k]);
        if w > left {
            return None;
        }
        assert(s@.skip(k as int).drop_first() == s@.skip(k + 1));
        left = left - w;
        k += 1;
    }
    Some(k)
}

// ---------------------------------------------------------------------------
// Runs of one character
// ---------------------------------------------------------------------------
/// Number of leading copies of `c` in `s`.
pub open spec fn run_len(s: Seq<char>, c: char) -> nat
    decreases s.len(),
{
    if s.len() > 0 && s[0] == c {
        1 + run_len(s.drop_first(), c)
    } else {
        0
    }
}

pub proof fn lemma_run_len(s: Seq<char>, c: char)
    ensures
        run_len(s, c) <= s.len(),
        forall|j: int| 0 <= j < run_len(s, c) ==> s[j] == c,
        run_len(s, c) < s.len() ==> s[run_len(s, c) as int] != c,
    decreases s.len(),
{
    if s.len() > 0 && s[0] == c {
        lemma_run_len(s.drop_first(), c);
        assert forall|j: int| 0 <= j < run_len(s, c) implies s[j] == c by {
            if j > 0 {
                assert(s[j] == s.drop_first()[j - 1]);
            }
        }
    }
}

/// Counts the copies of `c` at the start of `s[from..]`.
pub fn count_run(s: &[char], from: usize, c: char) -> (n: usize)
    requires
        from <= s.len(),
    ensures
        n == run_len(s@.skip(from as int), c),
        from + n <= s.len(),
{
    let mut k = from;
    assert(s@.skip(from as int) =~= s@.skip(from as int).skip(0));
    while k < s.len() && s[k] == c
        invariant
            from <= k <= s.len(),
            run_len(s@.skip(from as int), c) == (k - from) + run_len(s@.skip(k as int), c),
        decreases s.len() - k,
    {
        assert(s@.skip(k as int).drop_first() == s@.skip(k + 1));
        k += 1;
    }
    k - from
}

/// `trim_start` of a line, as a vector.
pub fn trim_start_of(line: &[char]) -> (t: Vec<char>)
    ensures
        t@ == trim_start(line@),
{
    crate::text::trim_start_chars(line)
}

} // verus!
