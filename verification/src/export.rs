//! Markdown rewriting for HTML export.
//!
//! Before Markdown is handed to the CommonMark renderer, a few constructs
//! that the renderer would drop or pass through unsafely are rewritten:
//! comment blocks become visible, escaped text; raw HTML blocks, display
//! math and inline math are located so that the caller can replace them.
//! Every rule skips fenced code blocks. Positions are character indices
//! into a line.
use vstd::prelude::*;

use crate::lines::{
    count_run, drop_bytes, drop_bytes_count, indent_bytes, indent_exceeds, join_range, join_sep,
    lemma_run_len, lines_view, run_len, split_lines, text_lines, trim_start_of, join_all,
};
use crate::paste::tag_name_len;
use crate::text::{
    chars_of, contains, ends_with, extend_chars, is_alnum, is_ascii_alnum, is_blank,
    is_blank_chars, lower_seq, lowercase, seq_contains, seq_ends_with, seq_starts_with,
    starts_with, string_of, trim, trim_chars, trim_start,
};

verus! {

broadcast use vstd::string::group_string_axioms;

// ---------------------------------------------------------------------------
// HTML escaping
// ---------------------------------------------------------------------------
/// The escaped form of one character.
pub open spec fn escape_char(c: char) -> Seq<char> {
    if c == '&' {
        "&amp;"@
    } else if c == '<' {
        "&lt;"@
    } else if c == '>' {
        "&gt;"@
    } else if c == '"' {
        "&quot;"@
    } else if c == '\'' {
        "&#39;"@
    } else {
        seq![c]
    }
}

/// `&`, `<`, `>`, `"` and `'` replaced by their HTML entities.
pub open spec fn spec_escape_html(s: Seq<char>) -> Seq<char>
    decreases s.len(),
{
    if s.len() == 0 {
        Seq::empty()
    } else {
        spec_escape_html(s.drop_last()) + escape_char(s.last())
    }
}

/// No character that starts or ends markup or quotes an attribute.
pub open spec fn markup_free(s: Seq<char>) -> bool {
    forall|i: int| 0 <= i < s.len() ==> #[trigger] s[i] != '<' && s[i] != '>' && s[i] != '"' && s[i] != '\''
}

/// Escaped text holds no `<`, `>`, `"` or `'`.
pub proof fn law_escaped_text_is_markup_free(s: Seq<char>)
    ensures
        markup_free(spec_escape_html(s)),
    decreases s.len(),
{
    if s.len() > 0 {
        law_escaped_text_is_markup_free(s.drop_last());
        reveal_strlit("&amp;");
        reveal_strlit("&lt;");
        reveal_strlit("&gt;");
        reveal_strlit("&quot;");
        reveal_strlit("&#39;");
        let a = spec_escape_html(s.drop_last());
        let b = escape_char(s.last());
        assert(markup_free(b));
        assert forall|i: int| 0 <= i < (a + b).len() implies #[trigger] (a + b)[i] != '<' && (a
            + b)[i] != '>' && (a + b)[i] != '"' && (a + b)[i] != '\'' by {
            if i < a.len() {
                assert((a + b)[i] == a[i]);
            } else {
                assert((a + b)[i] == b[i - a.len()]);
            }
        }
    }
}

/// How many times `c` occurs in `s`.
pub open spec fn count_char(s: Seq<char>, c: char) -> nat
    decreases s.len(),
{
    if s.len() == 0 {
        0
    } else {
        count_char(s.drop_last(), c) + if s.last() == c {
            1nat
        } else {
            0nat
        }
    }
}

/// `c` is one of the characters that escaping replaces.
pub open spec fn needs_escape(c: char) -> bool {
    c == '&' || c == '<' || c == '>' || c == '"' || c == '\''
}

proof fn lemma_entity_lengths()
    ensures
        "&amp;"@.len() == 5,
        "&lt;"@.len() == 4,
        "&gt;"@.len() == 4,
        "&quot;"@.len() == 6,
        "&#39;"@.len() == 5,
{
    reveal_strlit("&amp;");
    reveal_strlit("&lt;");
    reveal_strlit("&gt;");
    reveal_strlit("&quot;");
    reveal_strlit("&#39;");
}

/// Escaping lengthens the text by four for each `&`, three for each `<`
/// and `>`, five for each `"` and four for each `'`.
pub proof fn law_escape_length(s: Seq<char>)
    ensures
        spec_escape_html(s).len() == s.len() + 4 * count_char(s, '&') + 3 * count_char(s, '<') + 3
            * count_char(s, '>') + 5 * count_char(s, '"') + 4 * count_char(s, '\''),
    decreases s.len(),
{
    if s.len() > 0 {
        law_escape_length(s.drop_last());
        lemma_entity_lengths();
    }
}

/// Text with none of `&`, `<`, `>`, `"`, `'` is its own escaped form, and
/// only such text is.
pub proof fn law_escape_fixed_points(s: Seq<char>)
    ensures
        spec_escape_html(s) == s <==> forall|i: int| 0 <= i < s.len() ==> !needs_escape(#[trigger] s[i]),
    decreases s.len(),
{
    lemma_escape_not_shorter(s);
    if s.len() > 0 && forall|i: int| 0 <= i < s.len() ==> !needs_escape(#[trigger] s[i]) {
        law_escape_fixed_points(s.drop_last());
        assert forall|i: int| 0 <= i < s.drop_last().len() implies !needs_escape(
            #[trigger] s.drop_last()[i],
        ) by {
            assert(s.drop_last()[i] == s[i]);
        }
        assert(!needs_escape(s[s.len() - 1]));
        assert(escape_char(s.last()) == seq![s.last()]);
        assert(s.drop_last() + seq![s.last()] =~= s);
        assert(spec_escape_html(s) == s);
    } else if s.len() == 0 {
        assert(spec_escape_html(s) =~= s);
    } else {
        let w = choose|i: int| 0 <= i < s.len() && needs_escape(#[trigger] s[i]);
        assert(spec_escape_html(s).len() > s.len());
    }
}

proof fn lemma_escape_not_shorter(s: Seq<char>)
    ensures
        spec_escape_html(s).len() >= s.len(),
        (exists|i: int| 0 <= i < s.len() && needs_escape(#[trigger] s[i])) ==> spec_escape_html(
            s,
        ).len() > s.len(),
    decreases s.len(),
{
    lemma_entity_lengths();
    if s.len() > 0 {
        lemma_escape_not_shorter(s.drop_last());
        if exists|i: int| 0 <= i < s.len() && needs_escape(#[trigger] s[i]) {
            let w = choose|i: int| 0 <= i < s.len() && needs_escape(#[trigger] s[i]);
            if w < s.len() - 1 {
                assert(needs_escape(s.drop_last()[w]));
            }
        }
    }
}

/// `t` begins with `e`.
pub open spec fn begins_with(t: Seq<char>, e: Seq<char>) -> bool {
    t.len() >= e.len() && t.take(e.len() as int) == e
}

/// Reads HTML text left to right, turning each `&amp;`, `&lt;`, `&gt;`,
/// `&quot;` and `&#39;` back into its character and keeping every other
/// character.
pub open spec fn spec_unescape_html(t: Seq<char>) -> Seq<char>
    decreases t.len(),
{
    if t.len() == 0 {
        Seq::empty()
    } else if begins_with(t, "&amp;"@) && "&amp;"@.len() > 0 {
        seq!['&'] + spec_unescape_html(t.skip("&amp;"@.len() as int))
    } else if begins_with(t, "&lt;"@) && "&lt;"@.len() > 0 {
        seq!['<'] + spec_unescape_html(t.skip("&lt;"@.len() as int))
    } else if begins_with(t, "&gt;"@) && "&gt;"@.len() > 0 {
        seq!['>'] + spec_unescape_html(t.skip("&gt;"@.len() as int))
    } else if begins_with(t, "&quot;"@) && "&quot;"@.len() > 0 {
        seq!['"'] + spec_unescape_html(t.skip("&quot;"@.len() as int))
    } else if begins_with(t, "&#39;"@) && "&#39;"@.len() > 0 {
        seq!['\''] + spec_unescape_html(t.skip("&#39;"@.len() as int))
    } else {
        seq![t[0]] + spec_unescape_html(t.drop_first())
    }
}

proof fn lemma_escape_front(s: Seq<char>)
    requires
        s.len() > 0,
    ensures
        spec_escape_html(s) == escape_char(s[0]) + spec_escape_html(s.drop_first()),
    decreases s.len(),
{
    if s.len() == 1 {
        assert(s.drop_last() =~= Seq::<char>::empty());
        assert(s.drop_first() =~= Seq::<char>::empty());
        assert(spec_escape_html(s.drop_last()) =~= Seq::<char>::empty());
        assert(s.last() == s[0]);
        assert(Seq::<char>::empty() + escape_char(s[0]) =~= escape_char(s[0]));
        assert(spec_escape_html(s.drop_first()) =~= Seq::<char>::empty());
        assert(escape_char(s[0]) + Seq::<char>::empty() =~= escape_char(s[0]));
    } else {
        lemma_escape_front(s.drop_last());
        assert(s.drop_last().drop_first() =~= s.drop_first().drop_last());
        assert(s.drop_first().last() == s.last());
        assert(s.drop_last()[0] == s[0]);
        assert(spec_escape_html(s.drop_first()) == spec_escape_html(s.drop_first().drop_last())
            + escape_char(s.drop_first().last()));
    }
}

proof fn lemma_unescape_entity(e: Seq<char>, c: char, t: Seq<char>)
    requires
        e == escape_char(c),
        needs_escape(c),
    ensures
        spec_unescape_html(e + t) == seq![c] + spec_unescape_html(t),
{
    reveal_strlit("&amp;");
    reveal_strlit("&lt;");
    reveal_strlit("&gt;");
    reveal_strlit("&quot;");
    reveal_strlit("&#39;");
    let x = e + t;
    assert(x.take(e.len() as int) =~= e);
    assert(x.skip(e.len() as int) =~= t);
    assert(x[0] == '&');
    assert(x[1] == e[1]);
    if c != '&' {
        assert(!begins_with(x, "&amp;"@)) by {
            if begins_with(x, "&amp;"@) {
                assert(x.take(5)[1] == x[1]);
            }
        }
    }
    if c != '<' {
        assert(!begins_with(x, "&lt;"@)) by {
            if begins_with(x, "&lt;"@) {
                assert(x.take(4)[1] == x[1]);
            }
        }
    }
    if c != '>' {
        assert(!begins_with(x, "&gt;"@)) by {
            if begins_with(x, "&gt;"@) {
                assert(x.take(4)[1] == x[1]);
            }
        }
    }
    if c != '"' {
        assert(!begins_with(x, "&quot;"@)) by {
            if begins_with(x, "&quot;"@) {
                assert(x.take(6)[1] == x[1]);
            }
        }
    }
}

proof fn lemma_unescape_plain(c: char, t: Seq<char>)
    requires
        !needs_escape(c),
    ensures
        spec_unescape_html(seq![c] + t) == seq![c] + spec_unescape_html(t),
{
    reveal_strlit("&amp;");
    reveal_strlit("&lt;");
    reveal_strlit("&gt;");
    reveal_strlit("&quot;");
    reveal_strlit("&#39;");
    let x = seq![c] + t;
    assert(x[0] == c);
    assert(x.drop_first() =~= t);
    assert(!begins_with(x, "&amp;"@)) by {
        if begins_with(x, "&amp;"@) {
            assert(x.take(5)[0] == x[0]);
        }
    }
    assert(!begins_with(x, "&lt;"@)) by {
        if begins_with(x, "&lt;"@) {
            assert(x.take(4)[0] == x[0]);
        }
    }
    assert(!begins_with(x, "&gt;"@)) by {
        if begins_with(x, "&gt;"@) {
            assert(x.take(4)[0] == x[0]);
        }
    }
    assert(!begins_with(x, "&quot;"@)) by {
        if begins_with(x, "&quot;"@) {
            assert(x.take(6)[0] == x[0]);
        }
    }
    assert(!begins_with(x, "&#39;"@)) by {
        if begins_with(x, "&#39;"@) {
            assert(x.take(5)[0] == x[0]);
        }
    }
}

/// Decoding the five entities gives back the text that was escaped.
pub proof fn law_unescape_inverts_escape(s: Seq<char>)
    ensures
        spec_unescape_html(spec_escape_html(s)) == s,
    decreases s.len(),
{
    if s.len() == 0 {
        assert(spec_unescape_html(Seq::<char>::empty()) =~= Seq::<char>::empty());
    } else {
        lemma_escape_front(s);
        law_unescape_inverts_escape(s.drop_first());
        let c = s[0];
        let t = spec_escape_html(s.drop_first());
        if needs_escape(c) {
            lemma_unescape_entity(escape_char(c), c, t);
        } else {
            lemma_unescape_plain(c, t);
        }
        assert(seq![c] + s.drop_first() =~= s);
    }
}

/// `t` with every occurrence of `pat` replaced by `rep`, read left to
/// right without overlaps (`str::replace` with a non-empty pattern).
pub open spec fn replace_all(t: Seq<char>, pat: Seq<char>, rep: Seq<char>) -> Seq<char>
    decreases t.len(),
{
    if t.len() == 0 {
        Seq::empty()
    } else if pat.len() > 0 && begins_with(t, pat) {
        rep + replace_all(t.skip(pat.len() as int), pat, rep)
    } else {
        seq![t[0]] + replace_all(t.drop_first(), pat, rep)
    }
}

/// `s` with only the characters in `escaped` replaced by their entities.
pub open spec fn escape_only(s: Seq<char>, escaped: Set<char>) -> Seq<char>
    decreases s.len(),
{
    if s.len() == 0 {
        Seq::empty()
    } else {
        (if escaped.contains(s[0]) {
            escape_char(s[0])
        } else {
            seq![s[0]]
        }) + escape_only(s.drop_first(), escaped)
    }
}

proof fn lemma_escape_only_all(s: Seq<char>)
    ensures
        escape_only(s, set!['&', '<', '>', '"', '\'']) == spec_escape_html(s),
    decreases s.len(),
{
    if s.len() == 0 {
        assert(spec_escape_html(s) =~= Seq::<char>::empty());
    } else {
        lemma_escape_only_all(s.drop_first());
        lemma_escape_front(s);
        if !needs_escape(s[0]) {
            assert(escape_char(s[0]) == seq![s[0]]);
        }
    }
}

proof fn lemma_escape_only_none(s: Seq<char>)
    ensures
        escape_only(s, Set::empty()) == s,
    decreases s.len(),
{
    if s.len() > 0 {
        lemma_escape_only_none(s.drop_first());
        assert(seq![s[0]] + s.drop_first() =~= s);
    }
}

proof fn lemma_replace_copies(u: Seq<char>, t: Seq<char>, pat: Seq<char>, rep: Seq<char>)
    requires
        pat.len() > 0,
        pat[0] == '&',
        forall|i: int| 0 <= i < u.len() ==> u[i] != '&',
    ensures
        replace_all(u + t, pat, rep) == u + replace_all(t, pat, rep),
    decreases u.len(),
{
    if u.len() == 0 {
        assert(u + t =~= t);
        assert(u + replace_all(t, pat, rep) =~= replace_all(t, pat, rep));
    } else {
        let x = u + t;
        assert(x[0] == u[0]);
        assert(!begins_with(x, pat)) by {
            if begins_with(x, pat) {
                assert(x.take(pat.len() as int)[0] == x[0]);
            }
        }
        assert(x.drop_first() =~= u.drop_first() + t);
        lemma_replace_copies(u.drop_first(), t, pat, rep);
        assert(seq![u[0]] + (u.drop_first() + replace_all(t, pat, rep)) =~= u + replace_all(
            t,
            pat,
            rep,
        ));
    }
}

proof fn lemma_entity_shape(c: char)
    requires
        needs_escape(c),
    ensures
        escape_char(c).len() >= 2,
        escape_char(c)[0] == '&',
        forall|i: int| 1 <= i < escape_char(c).len() ==> escape_char(c)[i] != '&',
        forall|d: char| needs_escape(d) && d != c ==> escape_char(c)[1] != #[trigger] escape_char(d)[1],
{
    reveal_strlit("&amp;");
    reveal_strlit("&lt;");
    reveal_strlit("&gt;");
    reveal_strlit("&quot;");
    reveal_strlit("&#39;");
}

proof fn lemma_replace_step(s: Seq<char>, escaped: Set<char>, c: char)
    requires
        needs_escape(c),
        escaped.contains(c),
        escaped.contains('&'),
    ensures
        replace_all(escape_only(s, escaped), escape_char(c), seq![c]) == escape_only(
            s,
            escaped.remove(c),
        ),
    decreases s.len(),
{
    let pat = escape_char(c);
    let rep = seq![c];
    lemma_entity_shape(c);
    if s.len() > 0 {
        let t = escape_only(s.drop_first(), escaped);
        lemma_replace_step(s.drop_first(), escaped, c);
        let d = s[0];
        if d == c {
            let x = pat + t;
            assert(x.take(pat.len() as int) =~= pat);
            assert(x.skip(pat.len() as int) =~= t);
        } else if escaped.contains(d) && needs_escape(d) {
            let p = escape_char(d);
            lemma_entity_shape(d);
            let x = p + t;
            assert(x[0] == '&');
            assert(!begins_with(x, pat)) by {
                if begins_with(x, pat) {
                    assert(x.take(pat.len() as int)[1] == x[1]);
                    assert(x[1] == p[1]);
                }
            }
            assert(x.drop_first() =~= p.drop_first() + t);
            lemma_replace_copies(p.drop_first(), t, pat, rep);
            assert(seq![x[0]] + (p.drop_first() + replace_all(t, pat, rep)) =~= p + replace_all(
                t,
                pat,
                rep,
            ));
        } else {
            let p = if escaped.contains(d) {
                escape_char(d)
            } else {
                seq![d]
            };
            assert(p == seq![d]);
            assert(d != '&');
            lemma_replace_copies(p, t, pat, rep);
        }
    }
}

/// Replacing `&lt;`, `&gt;`, `&quot;` and `&#39;` by their characters, and
/// then `&amp;` by `&`, gives back the text that was escaped.
pub proof fn law_replacing_entities_inverts_escape(s: Seq<char>)
    ensures
        replace_all(
            replace_all(
                replace_all(
                    replace_all(
                        replace_all(spec_escape_html(s), "&lt;"@, seq!['<']),
                        "&gt;"@,
                        seq!['>'],
                    ),
                    "&quot;"@,
                    seq!['"'],
                ),
                "&#39;"@,
                seq!['\''],
            ),
            "&amp;"@,
            seq!['&'],
        ) == s,
{
    let s5 = set!['&', '<', '>', '"', '\''];
    let s4 = s5.remove('<');
    let s3 = s4.remove('>');
    let s2 = s3.remove('"');
    let s1 = s2.remove('\'');
    lemma_escape_only_all(s);
    lemma_replace_step(s, s5, '<');
    lemma_replace_step(s, s4, '>');
    lemma_replace_step(s, s3, '"');
    lemma_replace_step(s, s2, '\'');
    lemma_replace_step(s, s1, '&');
    assert(s1.remove('&') =~= Set::<char>::empty());
    lemma_escape_only_none(s);
}

/// Escapes the characters of `s` for use in HTML text or attributes.
pub fn escape_chars(s: &[char]) -> (out: Vec<char>)
    ensures
        out@ == spec_escape_html(s@),
{
    let mut out: Vec<char> = Vec::new();
    let mut i: usize = 0;
    assert(s@.take(0) =~= Seq::<char>::empty());
    while i < s.len()
        invariant
            i <= s.len(),
            out@ == spec_escape_html(s@.take(i as int)),
        decreases s.len() - i,
    {
        assert(s@.take(i + 1).drop_last() == s@.take(i as int));
        assert(s@.take(i + 1).last() == s@[i as int]);
        let c = s[i];
        if c == '&' {
            extend_chars(&mut out, &chars_of("&amp;"));
        } else if c == '<' {
            extend_chars(&mut out, &chars_of("&lt;"));
        } else if c == '>' {
            extend_chars(&mut out, &chars_of("&gt;"));
        } else if c == '"' {
            extend_chars(&mut out, &chars_of("&quot;"));
        } else if c == '\'' {
            extend_chars(&mut out, &chars_of("&#39;"));
        } else {
            out.push(c);
            assert(out@ =~= spec_escape_html(s@.take(i as int)) + seq![c]);
        }
        i += 1;
    }
    assert(s@.take(s.len() as int) == s@);
    out
}

/// Escapes `input` for use in HTML text or attributes.
pub fn escape_html(input: &str) -> (out: String)
    ensures
        out@ == spec_escape_html(input@),
{
    string_of(&escape_chars(&chars_of(input)))
}

// ---------------------------------------------------------------------------
// Fences and block starts
// ---------------------------------------------------------------------------
/// A fence that opens a fenced code block: up to three bytes of
/// indentation, then at least three backticks or tildes. Gives the fence
/// character and the length of the run.
pub open spec fn spec_opening_fence(line: Seq<char>) -> Option<(char, nat)> {
    let t = trim_start(line);
    if indent_bytes(line) > 3 || t.len() == 0 || (t[0] != '`' && t[0] != '~') {
        None
    } else if run_len(t, t[0]) >= 3 {
        Some((t[0], run_len(t, t[0])))
    } else {
        None
    }
}

/// A line that closes a fence of `marker` opened with `open_run`
/// characters: up to three bytes of indentation, at least as many fence
/// characters, then only whitespace.
pub open spec fn spec_is_closing_fence(line: Seq<char>, marker: char, open_run: nat) -> bool {
    let t = trim_start(line);
    &&& indent_bytes(line) <= 3
    &&& run_len(t, marker) >= open_run
    &&& is_blank(t.skip(run_len(t, marker) as int))
}

/// Recognizes the line that opens a fenced code block.
pub fn opening_fence(line: &[char]) -> (r: Option<(char, usize)>)
    ensures
        match (r, spec_opening_fence(line@)) {
            (Some((m, n)), Some((sm, sn))) => m == sm && n == sn,
            (None, None) => true,
            _ => false,
        },
{
    if indent_exceeds(line, 3) {
        return None;
    }
    let t = trim_start_of(line);
    if t.len() == 0 {
        return None;
    }
    let marker = t[0];
    if marker != '`' && marker != '~' {
        return None;
    }
    let run = count_run(&t, 0, marker);
    assert(t@.skip(0) == t@);
    if run >= 3 {
        Some((marker, run))
    } else {
        None
    }
}

/// Recognizes the line that closes a fence of `marker` opened with
/// `opening_run_len` characters.
pub fn is_closing_fence(line: &[char], marker: char, opening_run_len: usize) -> (r: bool)
    ensures
        r == spec_is_closing_fence(line@, marker, opening_run_len as nat),
{
    if indent_exceeds(line, 3) {
        return false;
    }
    let t = trim_start_of(line);
    let run = count_run(&t, 0, marker);
    assert(t@.skip(0) == t@);
    if run < opening_run_len {
        return false;
    }
    let rest = crate::text::slice_chars(&t, run, t.len());
    assert(rest@ == t@.skip(run as int));
    is_blank_chars(&rest)
}

/// A comment block starts here: `<!--` after up to three bytes of
/// indentation.
pub open spec fn spec_is_root_comment_start(line: Seq<char>) -> bool {
    seq_starts_with(trim_start(line), "<!--"@) && indent_bytes(line) <= 3
}

/// A display-math block starts here: `$$` after up to three bytes of
/// indentation.
pub open spec fn spec_is_root_display_math_start(line: Seq<char>) -> bool {
    seq_starts_with(trim_start(line), "$$"@) && indent_bytes(line) <= 3
}

pub fn is_root_comment_start(line: &[char]) -> (r: bool)
    ensures
        r == spec_is_root_comment_start(line@),
{
    let t = trim_start_of(line);
    starts_with(&t, &chars_of("<!--")) && !indent_exceeds(line, 3)
}

pub fn is_root_display_math_start(line: &[char]) -> (r: bool)
    ensures
        r == spec_is_root_display_math_start(line@),
{
    let t = trim_start_of(line);
    starts_with(&t, &chars_of("$$")) && !indent_exceeds(line, 3)
}

// ---------------------------------------------------------------------------
// Display-math regions
// ---------------------------------------------------------------------------
/// Where a display-math block that continues past its first line ends,
/// scanning from line `j`: just after a line that is `$$` once trimmed, at
/// the first blank line, or at the end of the text.
pub open spec fn math_region_end_from(lines: Seq<Seq<char>>, j: int) -> int
    decreases lines.len() - j,
{
    if j < 0 || j >= lines.len() {
        lines.len() as int
    } else if trim(lines[j]) == "$$"@ {
        j + 1
    } else if is_blank(lines[j]) {
        j
    } else {
        math_region_end_from(lines, j + 1)
    }
}

/// One past the last line of the display-math block opened at `start`. A
/// block whose opening line closes it too (`$$ x $$`) is that line alone.
pub open spec fn spec_display_math_region(lines: Seq<Seq<char>>, start: int) -> int {
    let opener = trim(lines[start]);
    if opener != "$$"@ && (drop_bytes(opener, 2) matches Some(rest) && seq_contains(rest, "$$"@)) {
        start + 1
    } else {
        math_region_end_from(lines, start + 1)
    }
}

/// Finds where the display-math block opened at line `start` ends.
pub fn collect_display_math_region(lines: &[Vec<char>], start: usize) -> (end: usize)
    requires
        start < lines.len(),
        drop_bytes(trim(lines@[start as int]@), 2) is Some,
    ensures
        end == spec_display_math_region(lines_view(lines@), start as int),
        start < end <= lines.len() || end == start + 1,
{
    let ghost ls = lines_view(lines@);
    assert(ls[start as int] == lines@[start as int]@);
    let opener = trim_chars(&lines[start]);
    let dd = chars_of("$$");
    if !crate::text::chars_eq(&opener, &dd) {
        match drop_bytes_count(&opener, 2) {
            Some(k) => {
                let rest = crate::text::slice_chars(&opener, k, opener.len());
                if contains(&rest, &dd) {
                    return start + 1;
                }
            },
            None => {},
        }
    }
    let mut index = start + 1;
    while index < lines.len()
        invariant
            start < index <= lines.len(),
            ls == lines_view(lines@),
            ls.len() == lines.len(),
            dd@ == "$$"@,
            math_region_end_from(ls, start + 1) == math_region_end_from(ls, index as int),
            spec_display_math_region(ls, start as int) == math_region_end_from(ls, start + 1),
        decreases lines.len() - index,
    {
        assert(ls[index as int] == lines@[index as int]@);
        let t = trim_chars(&lines[index]);
        if crate::text::chars_eq(&t, &dd) {
            return index + 1;
        }
        if is_blank_chars(&lines[index]) {
            return index;
        }
        index += 1;
    }
    lines.len()
}

// ---------------------------------------------------------------------------
// Raw HTML blocks
// ---------------------------------------------------------------------------
/// The opening tag of a raw HTML block: its lower-cased name, whether the
/// line ends with `/>`, and whether the same line closes the element.
pub struct ExportHtmlStart {
    pub name: String,
    pub self_closing: bool,
    pub closes_same_line: bool,
}

/// The spec form of an `ExportHtmlStart`.
pub struct HtmlStartView {
    pub name: Seq<char>,
    pub self_closing: bool,
    pub closes_same_line: bool,
}

impl ExportHtmlStart {
    pub open spec fn view(&self) -> HtmlStartView {
        HtmlStartView {
            name: self.name@,
            self_closing: self.self_closing,
            closes_same_line: self.closes_same_line,
        }
    }
}

/// `</name>`.
pub open spec fn closing_tag(name: Seq<char>) -> Seq<char> {
    "</"@ + name + ">"@
}

/// The opening tag that starts a raw HTML block on `line`: up to three
/// bytes of indentation, `<`, a tag name, then `>`, a space, a tab or `/`.
/// Comments, closing tags, declarations and processing instructions start
/// no block.
pub open spec fn spec_root_html_start(line: Seq<char>) -> Option<HtmlStartView> {
    let t = trim_start(line);
    if indent_bytes(line) > 3 || seq_starts_with(t, "<!--"@) || t.len() == 0 || t[0] != '<' {
        None
    } else {
        let tagged = t.drop_first();
        let n = tag_name_len(tagged);
        if tagged.len() > 0 && (tagged[0] == '/' || tagged[0] == '!' || tagged[0] == '?') {
            None
        } else if n == 0 || n >= tagged.len() {
            None
        } else if !(tagged[n as int] == '>' || tagged[n as int] == ' ' || tagged[n as int] == '\t'
            || tagged[n as int] == '/') {
            None
        } else {
            let name = lower_seq(tagged.take(n as int));
            Some(
                HtmlStartView {
                    name,
                    self_closing: seq_ends_with(t, "/>"@),
                    closes_same_line: seq_contains(lower_seq(t), closing_tag(name)),
                },
            )
        }
    }
}

fn count_tag_name(s: &[char]) -> (n: usize)
    ensures
        n == tag_name_len(s@),
        n <= s.len(),
{
    let mut k: usize = 0;
    assert(s@.skip(0) == s@);
    while k < s.len() && (is_alnum(s[k]) || s[k] == '-')
        invariant
            k <= s.len(),
            tag_name_len(s@) == k + tag_name_len(s@.skip(k as int)),
        decreases s.len() - k,
    {
        assert(s@.skip(k as int).drop_first() == s@.skip(k + 1));
        k += 1;
    }
    k
}

fn closing_tag_of(name: &[char]) -> (out: Vec<char>)
    ensures
        out@ == closing_tag(name@),
{
    let mut out = chars_of("</");
    extend_chars(&mut out, name);
    extend_chars(&mut out, &chars_of(">"));
    out
}

/// Recognizes the opening tag of a raw HTML block.
pub fn root_html_start(line: &[char]) -> (r: Option<ExportHtmlStart>)
    ensures
        match (r, spec_root_html_start(line@)) {
            (Some(h), Some(v)) => h.view() == v,
            (None, None) => true,
            _ => false,
        },
{
    let t = trim_start_of(line);
    if indent_exceeds(line, 3) || starts_with(&t, &chars_of("<!--")) || t.len() == 0 || t[0]
        != '<' {
        return None;
    }
    let tagged = crate::text::slice_chars(&t, 1, t.len());
    assert(tagged@ == t@.drop_first());
    if tagged.len() > 0 && (tagged[0] == '/' || tagged[0] == '!' || tagged[0] == '?') {
        return None;
    }
    let n = count_tag_name(&tagged);
    if n == 0 || n >= tagged.len() {
        return None;
    }
    let next = tagged[n];
    if !(next == '>' || next == ' ' || next == '\t' || next == '/') {
        return None;
    }
    let raw_name = crate::text::slice_chars(&tagged, 0, n);
    assert(raw_name@ == tagged@.take(n as int));
    let name = lowercase(&raw_name);
    let self_closing = ends_with(&t, &chars_of("/>"));
    let closes_same_line = contains(&lowercase(&t), &closing_tag_of(&name));
    Some(ExportHtmlStart { name: string_of(&name), self_closing, closes_same_line })
}

/// Where a raw HTML block that continues past its first line ends, scanning
/// from line `j`: just after a line holding the closing tag (in any ASCII
/// case), at the first blank line, or at the end of the text.
pub open spec fn html_region_end_from(lines: Seq<Seq<char>>, close: Seq<char>, j: int) -> int
    decreases lines.len() - j,
{
    if j < 0 || j >= lines.len() {
        lines.len() as int
    } else if seq_contains(lower_seq(lines[j]), close) {
        j + 1
    } else if is_blank(lines[j]) {
        j
    } else {
        html_region_end_from(lines, close, j + 1)
    }
}

/// One past the last line of the raw HTML block opened at `start`.
pub open spec fn spec_html_region(lines: Seq<Seq<char>>, start: int, html: HtmlStartView) -> int {
    if html.self_closing || html.closes_same_line {
        start + 1
    } else {
        html_region_end_from(lines, closing_tag(html.name), start + 1)
    }
}

/// Finds where the raw HTML block opened at line `start` ends.
pub fn collect_export_html_region(lines: &[Vec<char>], start: usize, html: &ExportHtmlStart) -> (end: usize)
    requires
        start < lines.len(),
    ensures
        end == spec_html_region(lines_view(lines@), start as int, html.view()),
        start < end <= lines.len(),
{
    let ghost ls = lines_view(lines@);
    if html.self_closing || html.closes_same_line {
        return start + 1;
    }
    let close = closing_tag_of(&chars_of(html.name.as_str()));
    let mut index = start + 1;
    while index < lines.len()
        invariant
            start < index <= lines.len(),
            ls == lines_view(lines@),
            ls.len() == lines.len(),
            close@ == closing_tag(html.name@),
            spec_html_region(ls, start as int, html.view()) == html_region_end_from(
                ls,
                close@,
                index as int,
            ),
        decreases lines.len() - index,
    {
        assert(ls[index as int] == lines@[index as int]@);
        if contains(&lowercase(&lines[index]), &close) {
            return index + 1;
        }
        if is_blank_chars(&lines[index]) {
            return index;
        }
        index += 1;
    }
    lines.len()
}

// ---------------------------------------------------------------------------
// Splitting Markdown into lines and rewritable blocks
// ---------------------------------------------------------------------------
/// Which kind of block a rewrite looks for.
#[derive(Clone, Copy, PartialEq, Eq, Structural, Debug)]
pub enum BlockKind {
    /// `<!-- ... -->` comment blocks, up to the line holding `-->`.
    Comment,
    /// Raw HTML blocks.
    RawHtml,
    /// `$$` display-math blocks.
    DisplayMath,
}

/// A piece of Markdown: a line kept as it is, or the lines of one block,
/// joined with `\n`.
#[derive(PartialEq, Eq, Debug)]
pub enum ExportPiece {
    Line(String),
    Block(String),
}

/// The spec form of an `ExportPiece`.
pub enum PieceView {
    Line(Seq<char>),
    Block(Seq<char>),
}

impl ExportPiece {
    pub open spec fn view(&self) -> PieceView {
        match self {
            ExportPiece::Line(s) => PieceView::Line(s@),
            ExportPiece::Block(s) => PieceView::Block(s@),
        }
    }
}

pub open spec fn pieces_view(v: Seq<ExportPiece>) -> Seq<PieceView> {
    v.map_values(|p: ExportPiece| p.view())
}

/// The first line at or after `j` that holds `-->`.
pub open spec fn comment_close_from(lines: Seq<Seq<char>>, j: int) -> Option<int>
    decreases lines.len() - j,
{
    if j < 0 || j >= lines.len() {
        None
    } else if seq_contains(lines[j], "-->"@) {
        Some(j)
    } else {
        comment_close_from(lines, j + 1)
    }
}

/// One past the last line of the block of `kind` that starts at line `i`,
/// or `None` when no such block starts there (a comment that is never
/// closed starts none).
pub open spec fn block_end(kind: BlockKind, lines: Seq<Seq<char>>, i: int) -> Option<int> {
    match kind {
        BlockKind::Comment => if spec_is_root_comment_start(lines[i]) {
            match comment_close_from(lines, i) {
                Some(e) => Some(e + 1),
                None => None,
            }
        } else {
            None
        },
        BlockKind::RawHtml => match spec_root_html_start(lines[i]) {
            Some(h) => Some(spec_html_region(lines, i, h)),
            None => None,
        },
        BlockKind::DisplayMath => if spec_is_root_display_math_start(lines[i]) {
            Some(spec_display_math_region(lines, i))
        } else {
            None
        },
    }
}

/// The pieces of `lines` from line `i` on, when the scan is inside the
/// fenced code block described by `fence` (or outside any). Lines of fenced
/// code and fence lines are kept; a block of `kind` outside fences becomes
/// one piece; any other line is kept.
pub open spec fn pieces_from(kind: BlockKind, lines: Seq<Seq<char>>, i: int, fence: Option<(char, nat)>) -> Seq<PieceView>
    decreases lines.len() - i,
{
    if i < 0 || i >= lines.len() {
        Seq::empty()
    } else {
        match fence {
            Some((m, r)) => seq![PieceView::Line(lines[i])] + pieces_from(
                kind,
                lines,
                i + 1,
                if spec_is_closing_fence(lines[i], m, r) {
                    None
                } else {
                    fence
                },
            ),
            None => match spec_opening_fence(lines[i]) {
                Some(f) => seq![PieceView::Line(lines[i])] + pieces_from(kind, lines, i + 1, Some(f)),
                None => match block_end(kind, lines, i) {
                    Some(e) => if i < e <= lines.len() {
                        seq![PieceView::Block(join_sep(lines.subrange(i, e)))] + pieces_from(
                            kind,
                            lines,
                            e,
                            None,
                        )
                    } else {
                        Seq::empty()
                    },
                    None => seq![PieceView::Line(lines[i])] + pieces_from(kind, lines, i + 1, None),
                },
            },
        }
    }
}

/// The pieces of a Markdown text for blocks of `kind`.
pub open spec fn spec_pieces(kind: BlockKind, markdown: Seq<char>) -> Seq<PieceView> {
    pieces_from(kind, text_lines(markdown), 0, None)
}

proof fn lemma_trim_keeps_dollars(l: Seq<char>)
    requires
        seq_starts_with(trim_start(l), "$$"@),
    ensures
        drop_bytes(trim(l), 2) is Some,
{
    reveal_strlit("$$");
    let t = trim_start(l);
    crate::text::lemma_trailing_ws(t);
    assert(t.take(2) == "$$"@);
    assert(t[0] == '$' && t[1] == '$') by {
        assert(t.take(2)[0] == t[0]);
        assert(t.take(2)[1] == t[1]);
    }
    let x = trim(l);
    assert(x[0] == '$' && x[1] == '$');
    let y = x.drop_first();
    assert(y[0] == '$');
    assert(drop_bytes(y.drop_first(), 0) is Some);
    assert(drop_bytes(y, 1) == drop_bytes(y.drop_first(), 0));
    assert(drop_bytes(x, 2) == drop_bytes(y, 1));
}

/// One past the end of a comment block starting at line `i`, if closed.
fn comment_end(lines: &[Vec<char>], i: usize) -> (r: Option<usize>)
    requires
        i < lines.len(),
    ensures
        match (r, comment_close_from(lines_view(lines@), i as int)) {
            (Some(e), Some(k)) => e == k + 1 && i <= k < lines.len(),
            (None, None) => true,
            _ => false,
        },
{
    let ghost ls = lines_view(lines@);
    let close = chars_of("-->");
    let mut j = i;
    while j < lines.len()
        invariant
            i <= j <= lines.len(),
            ls == lines_view(lines@),
            ls.len() == lines.len(),
            close@ == "-->"@,
            comment_close_from(ls, i as int) == comment_close_from(ls, j as int),
        decreases lines.len() - j,
    {
        assert(ls[j as int] == lines@[j as int]@);
        if contains(&lines[j], &close) {
            return Some(j + 1);
        }
        j += 1;
    }
    None
}

/// Exec form of `block_end`.
fn find_block_end(kind: BlockKind, lines: &[Vec<char>], i: usize) -> (r: Option<usize>)
    requires
        i < lines.len(),
    ensures
        match (r, block_end(kind, lines_view(lines@), i as int)) {
            (Some(e), Some(se)) => e == se && i < e <= lines.len(),
            (None, None) => true,
            _ => false,
        },
{
    let ghost ls = lines_view(lines@);
    assert(ls[i as int] == lines@[i as int]@);
    match kind {
        BlockKind::Comment => {
            if is_root_comment_start(&lines[i]) {
                comment_end(lines, i)
            } else {
                None
            }
        },
        BlockKind::RawHtml => {
            match root_html_start(&lines[i]) {
                Some(h) => Some(collect_export_html_region(lines, i, &h)),
                None => None,
            }
        },
        BlockKind::DisplayMath => {
            if is_root_display_math_start(&lines[i]) {
                proof {
                    lemma_trim_keeps_dollars(lines@[i as int]@);
                }
                let e = collect_display_math_region(lines, i);
                Some(e)
            } else {
                None
            }
        },
    }
}

proof fn lemma_pieces_push(done: Seq<PieceView>, x: PieceView, rest: Seq<PieceView>)
    ensures
        done.push(x) + rest == done + (seq![x] + rest),
{
    assert(done.push(x) + rest =~= done + (seq![x] + rest));
}

/// Splits `lines` into kept lines and blocks of `kind`.
pub fn split_pieces(kind: BlockKind, lines: &[Vec<char>]) -> (out: Vec<ExportPiece>)
    ensures
        pieces_view(out@) == pieces_from(kind, lines_view(lines@), 0, None),
{
    let ghost ls = lines_view(lines@);
    let ghost all = pieces_from(kind, ls, 0, None);
    let mut out: Vec<ExportPiece> = Vec::new();
    let mut index: usize = 0;
    let mut fence: Option<(char, usize)> = None;
    assert(pieces_view(out@) + all =~= all);
    while index < lines.len()
        invariant
            index <= lines.len(),
            ls == lines_view(lines@),
            ls.len() == lines.len(),
            all == pieces_from(kind, ls, 0, None),
            pieces_view(out@) + pieces_from(
                kind,
                ls,
                index as int,
                match fence {
                    Some((m, r)) => Some((m, r as nat)),
                    None => None,
                },
            ) == all,
        decreases lines.len() - index,
    {
        let ghost done = pieces_view(out@);
        assert(ls[index as int] == lines@[index as int]@);
        let line = &lines[index];
        match fence {
            Some((marker, run)) => {
                let closes = is_closing_fence(line, marker, run);
                proof {
                    lemma_pieces_push(
                        done,
                        PieceView::Line(line@),
                        pieces_from(
                            kind,
                            ls,
                            index + 1,
                            if closes {
                                None
                            } else {
                                Some((marker, run as nat))
                            },
                        ),
                    );
                }
                out.push(ExportPiece::Line(string_of(line)));
                assert(pieces_view(out@) =~= done.push(PieceView::Line(line@)));
                if closes {
                    fence = None;
                }
                index += 1;
            },
            None => {
                match opening_fence(line) {
                    Some(f) => {
                        proof {
                            lemma_pieces_push(
                                done,
                                PieceView::Line(line@),
                                pieces_from(kind, ls, index + 1, Some((f.0, f.1 as nat))),
                            );
                        }
                        out.push(ExportPiece::Line(string_of(line)));
                        assert(pieces_view(out@) =~= done.push(PieceView::Line(line@)));
                        fence = Some(f);
                        index += 1;
                    },
                    None => {
                        match find_block_end(kind, lines, index) {
                            Some(end) => {
                                let raw = join_range(lines, index, end);
                                proof {
                                    lemma_pieces_push(
                                        done,
                                        PieceView::Block(raw@),
                                        pieces_from(kind, ls, end as int, None),
                                    );
                                }
                                out.push(ExportPiece::Block(string_of(&raw)));
                                assert(pieces_view(out@) =~= done.push(PieceView::Block(raw@)));
                                index = end;
                            },
                            None => {
                                proof {
                                    lemma_pieces_push(
                                        done,
                                        PieceView::Line(line@),
                                        pieces_from(kind, ls, index + 1, None),
                                    );
                                }
                                out.push(ExportPiece::Line(string_of(line)));
                                assert(pieces_view(out@) =~= done.push(PieceView::Line(line@)));
                                index += 1;
                            },
                        }
                    },
                }
            },
        }
    }
    assert(pieces_view(out@) + Seq::<PieceView>::empty() =~= pieces_view(out@));
    out
}

// ---------------------------------------------------------------------------
// The block rewrites
// ---------------------------------------------------------------------------
/// A comment block shown as escaped, preformatted text.
pub open spec fn visible_comment(raw: Seq<char>) -> Seq<char> {
    "<pre class=\"vlt-comment\">"@ + spec_escape_html(raw) + "</pre>"@
}

/// The text of each piece, comment blocks made visible.
pub open spec fn comment_piece_texts(pieces: Seq<PieceView>) -> Seq<Seq<char>> {
    pieces.map_values(
        |p: PieceView|
            match p {
                PieceView::Line(l) => l,
                PieceView::Block(raw) => visible_comment(raw),
            },
    )
}

/// The Markdown text with every comment block outside fenced code replaced
/// by `<pre class="vlt-comment">` holding its escaped source.
pub open spec fn spec_rewrite_visible_comment_blocks(markdown: Seq<char>) -> Seq<char> {
    join_sep(comment_piece_texts(spec_pieces(BlockKind::Comment, markdown)))
}

/// Every line kept as it is.
pub open spec fn all_lines(ls: Seq<Seq<char>>) -> Seq<PieceView> {
    ls.map_values(|l: Seq<char>| PieceView::Line(l))
}

proof fn lemma_pieces_without_comments(lines: Seq<Seq<char>>, i: int, fence: Option<(char, nat)>)
    requires
        0 <= i <= lines.len(),
        forall|j: int| 0 <= j < lines.len() ==> !spec_is_root_comment_start(#[trigger] lines[j]),
    ensures
        pieces_from(BlockKind::Comment, lines, i, fence) == all_lines(lines.skip(i)),
    decreases lines.len() - i,
{
    if i == lines.len() {
        assert(all_lines(lines.skip(i)) =~= Seq::<PieceView>::empty());
    } else {
        assert(!spec_is_root_comment_start(lines[i]));
        let next_fence = match fence {
            Some((m, r)) => if spec_is_closing_fence(lines[i], m, r) {
                None
            } else {
                fence
            },
            None => spec_opening_fence(lines[i]),
        };
        lemma_pieces_without_comments(lines, i + 1, next_fence);
        assert(all_lines(lines.skip(i)) =~= seq![PieceView::Line(lines[i])] + all_lines(
            lines.skip(i + 1),
        ));
    }
}

/// Text without a comment block start on any line is exported unchanged
/// by the comment rewrite.
pub proof fn law_comment_rewrite_keeps_comment_free_text(markdown: Seq<char>)
    requires
        forall|j: int|
            0 <= j < text_lines(markdown).len() ==> !spec_is_root_comment_start(
                #[trigger] text_lines(markdown)[j],
            ),
    ensures
        spec_rewrite_visible_comment_blocks(markdown) == markdown,
{
    let ls = text_lines(markdown);
    lemma_pieces_without_comments(ls, 0, None);
    assert(ls.skip(0) =~= ls);
    assert(comment_piece_texts(all_lines(ls)) =~= ls);
    crate::lines::law_join_split_lines(markdown);
}

/// Makes comment blocks visible in exported HTML.
pub fn rewrite_visible_comment_blocks(markdown: &str) -> (out: String)
    ensures
        out@ == spec_rewrite_visible_comment_blocks(markdown@),
{
    let lines = split_lines(&chars_of(markdown));
    let pieces = split_pieces(BlockKind::Comment, &lines);
    let ghost pv = pieces_view(pieces@);
    let mut texts: Vec<Vec<char>> = Vec::new();
    let mut i: usize = 0;
    while i < pieces.len()
        invariant
            i <= pieces.len(),
            pv == pieces_view(pieces@),
            lines_view(texts@) == comment_piece_texts(pv.take(i as int)),
        decreases pieces.len() - i,
    {
        let ghost before = lines_view(texts@);
        assert(pv[i as int] == pieces@[i as int].view());
        let text = match &pieces[i] {
            ExportPiece::Line(l) => chars_of(l.as_str()),
            ExportPiece::Block(raw) => {
                let mut t = chars_of("<pre class=\"vlt-comment\">");
                extend_chars(&mut t, &escape_chars(&chars_of(raw.as_str())));
                extend_chars(&mut t, &chars_of("</pre>"));
                assert(t@ == visible_comment(raw@));
                t
            },
        };
        assert(text@ == comment_piece_texts(seq![pv[i as int]])[0]);
        texts.push(text);
        assert(pv.take(i + 1) =~= pv.take(i as int).push(pv[i as int]));
        assert(lines_view(texts@) =~= before.push(text@));
        assert(comment_piece_texts(pv.take(i + 1)) =~= comment_piece_texts(pv.take(i as int)).push(
            comment_piece_texts(seq![pv[i as int]])[0],
        ));
        i += 1;
    }
    assert(pv.take(pieces.len() as int) =~= pv);
    string_of(&join_all(&texts))
}

/// Splits Markdown into kept lines and the raw HTML blocks found outside
/// fenced code, each block with its lines joined by `\n`; the caller
/// sanitizes the blocks before rendering.
pub fn rewrite_unsafe_html_blocks(markdown: &str) -> (out: Vec<ExportPiece>)
    ensures
        pieces_view(out@) == spec_pieces(BlockKind::RawHtml, markdown@),
{
    let lines = split_lines(&chars_of(markdown));
    split_pieces(BlockKind::RawHtml, &lines)
}

/// Splits Markdown into kept lines and the `$$` display-math blocks found
/// outside fenced code; the caller renders the blocks.
pub fn rewrite_display_math_blocks(markdown: &str) -> (out: Vec<ExportPiece>)
    ensures
        pieces_view(out@) == spec_pieces(BlockKind::DisplayMath, markdown@),
{
    let lines = split_lines(&chars_of(markdown));
    split_pieces(BlockKind::DisplayMath, &lines)
}

// ---------------------------------------------------------------------------
// Inline scanning helpers
// ---------------------------------------------------------------------------
/// `n` backticks.
pub open spec fn ticks(n: nat) -> Seq<char> {
    Seq::new(n, |_i: int| '`')
}

/// The first position at or after `from` where `n` backticks start.
pub open spec fn spec_find_backtick_run(line: Seq<char>, from: int, n: nat) -> Option<int>
    decreases line.len() - from,
{
    if from < 0 || from >= line.len() {
        None
    } else if seq_starts_with(line.skip(from), ticks(n)) {
        Some(from)
    } else {
        spec_find_backtick_run(line, from + 1, n)
    }
}

/// Finds the backtick run of length `run_len` that closes a code span.
pub fn find_backtick_run(line: &[char], index: usize, run_len: usize) -> (r: Option<usize>)
    ensures
        match (r, spec_find_backtick_run(line@, index as int, run_len as nat)) {
            (Some(k), Some(sk)) => k == sk && index <= k < line.len() && k + run_len <= line.len(),
            (None, None) => true,
            _ => false,
        },
{
    let mut t: Vec<char> = Vec::new();
    let mut j: usize = 0;
    while j < run_len
        invariant
            j <= run_len,
            t@ == ticks(j as nat),
        decreases run_len - j,
    {
        t.push('`');
        j += 1;
        assert(t@ =~= ticks(j as nat));
    }
    let mut k = index;
    while k < line.len()
        invariant
            index <= k,
            t@ == ticks(run_len as nat),
            spec_find_backtick_run(line@, index as int, run_len as nat) == spec_find_backtick_run(
                line@,
                k as int,
                run_len as nat,
            ),
        decreases line.len() - k,
    {
        if crate::text::starts_with_at(line, k, &t) {
            return Some(k);
        }
        k += 1;
    }
    None
}

/// Number of backslashes right before position `index`.
pub open spec fn backslashes_before(line: Seq<char>, index: int) -> nat
    decreases index,
{
    if index <= 0 || index > line.len() {
        0
    } else if line[index - 1] == '\\' {
        1 + backslashes_before(line, index - 1)
    } else {
        0
    }
}

/// An odd number of backslashes stands right before `index`.
pub open spec fn spec_is_escaped_ascii(line: Seq<char>, index: int) -> bool {
    backslashes_before(line, index) % 2 == 1
}

/// Is the character at `index` escaped by a backslash?
pub fn is_escaped_ascii(line: &[char], index: usize) -> (r: bool)
    requires
        index <= line.len(),
    ensures
        r == spec_is_escaped_ascii(line@, index as int),
{
    let mut count: usize = 0;
    let mut cursor = index;
    while cursor > 0 && line[cursor - 1] == '\\'
        invariant
            cursor <= index <= line.len(),
            count == index - cursor,
            backslashes_before(line@, index as int) == count + backslashes_before(
                line@,
                cursor as int,
            ),
        decreases cursor,
    {
        count += 1;
        cursor -= 1;
    }
    count % 2 == 1
}

/// The character before `index`, if any.
pub open spec fn spec_previous_char(line: Seq<char>, index: int) -> Option<char> {
    if 0 < index <= line.len() {
        Some(line[index - 1])
    } else {
        None
    }
}

pub fn previous_char(line: &[char], index: usize) -> (r: Option<char>)
    ensures
        r == spec_previous_char(line@, index as int),
{
    if 0 < index && index <= line.len() {
        Some(line[index - 1])
    } else {
        None
    }
}

/// A `~` at `index` that is not part of a `~~` run.
pub open spec fn spec_is_single_tilde_marker(line: Seq<char>, index: int) -> bool {
    &&& 0 <= index < line.len()
    &&& line[index] == '~'
    &&& !(spec_previous_char(line, index) == Some('~'))
    &&& !(index + 1 < line.len() && line[index + 1] == '~')
}

pub fn is_single_tilde_marker(line: &[char], index: usize) -> (r: bool)
    requires
        index <= line.len(),
    ensures
        r == spec_is_single_tilde_marker(line@, index as int),
{
    if index >= line.len() || line[index] != '~' {
        return false;
    }
    let prev_is_tilde = match previous_char(line, index) {
        Some(c) => c == '~',
        None => false,
    };
    let next_is_tilde = index + 1 < line.len() && line[index + 1] == '~';
    !prev_is_tilde && !next_is_tilde
}

/// A usable inline-math body: not empty, on one line, and without
/// surrounding whitespace.
pub open spec fn spec_valid_inline_math_body(body: Seq<char>) -> bool {
    body.len() > 0 && !crate::text::has_char(body, '\n') && !crate::text::has_char(body, '\r')
        && trim(body) == body
}

pub fn valid_inline_math_body(body: &[char]) -> (r: bool)
    ensures
        r == spec_valid_inline_math_body(body@),
{
    if body.len() == 0 || crate::text::contains_char(body, '\n') || crate::text::contains_char(
        body,
        '\r',
    ) {
        return false;
    }
    let t = trim_chars(body);
    crate::text::chars_eq(&t, body)
}

pub open spec fn is_amount_char(c: char) -> bool {
    crate::text::is_ascii_digit(c) || c == '.' || c == ',' || c == '_'
}

/// `$...$` that reads as an amount of money: a digit right before the
/// opening or right after the closing `$`, or a body of more than one
/// character made of digits and `.`, `,`, `_` with at least one digit.
pub open spec fn spec_looks_like_export_currency(line: Seq<char>, open: int, close: int, body: Seq<char>) -> bool {
    let prev_is_digit = open > 0 && crate::text::is_ascii_digit(line[open - 1]);
    let next_is_digit = close + 1 < line.len() && crate::text::is_ascii_digit(line[close + 1]);
    prev_is_digit || next_is_digit || ((forall|i: int|
        0 <= i < body.len() ==> is_amount_char(#[trigger] body[i])) && (exists|i: int|
        0 <= i < body.len() && crate::text::is_ascii_digit(#[trigger] body[i])) && body.len() > 1)
}

pub fn looks_like_export_currency(line: &[char], open: usize, close: usize, body: &[char]) -> (r: bool)
    requires
        open <= line.len(),
    ensures
        r == spec_looks_like_export_currency(line@, open as int, close as int, body@),
{
    let prev_is_digit = open > 0 && crate::text::is_digit(line[open - 1]);
    let next_is_digit = close < line.len() && close + 1 < line.len() && crate::text::is_digit(
        line[close + 1],
    );
    if prev_is_digit || next_is_digit {
        return true;
    }
    let mut all_amount = true;
    let mut any_digit = false;
    let mut i: usize = 0;
    while i < body.len()
        invariant
            i <= body.len(),
            all_amount == (forall|j: int| 0 <= j < i ==> is_amount_char(#[trigger] body@[j])),
            any_digit == (exists|j: int|
                0 <= j < i && crate::text::is_ascii_digit(#[trigger] body@[j])),
        decreases body.len() - i,
    {
        let c = body[i];
        let amount = crate::text::is_digit(c) || c == '.' || c == ',' || c == '_';
        all_amount = all_amount && amount;
        any_digit = any_digit || crate::text::is_digit(c);
        i += 1;
    }
    all_amount && any_digit && body.len() > 1
}

// ---------------------------------------------------------------------------
// Inline math and scripts
// ---------------------------------------------------------------------------
/// A `$` at `c` that can close inline math: not the start of `$$` and not
/// escaped.
pub open spec fn dollar_closes_at(line: Seq<char>, c: int) -> bool {
    &&& 0 <= c < line.len()
    &&& line[c] == '$'
    &&& !(c + 1 < line.len() && line[c + 1] == '$')
    &&& !spec_is_escaped_ascii(line, c)
}

/// The first position at or after `from` where a `$` closes inline math.
pub open spec fn dollar_close_from(line: Seq<char>, from: int) -> Option<int>
    decreases line.len() - from,
{
    if from < 0 || from >= line.len() {
        None
    } else if dollar_closes_at(line, from) {
        Some(from)
    } else {
        dollar_close_from(line, from + 1)
    }
}

/// Inline math `$body$` opened at `index`: the position after the closing
/// `$` and the body. Nothing when `index` holds no lone, unescaped `$`, or
/// when the first closing `$` gives an invalid body or an amount of money.
pub open spec fn spec_locate_inline_dollar_math(line: Seq<char>, index: int) -> Option<(int, Seq<char>)> {
    if !(0 <= index < line.len() && line[index] == '$') || (index + 1 < line.len() && line[index
        + 1] == '$') || spec_is_escaped_ascii(line, index) {
        None
    } else {
        match dollar_close_from(line, index + 1) {
            None => None,
            Some(c) => {
                let body = line.subrange(index + 1, c);
                if spec_valid_inline_math_body(body) && !spec_looks_like_export_currency(
                    line,
                    index,
                    c,
                    body,
                ) {
                    Some((c + 1, body))
                } else {
                    None
                }
            },
        }
    }
}

/// Locates `$...$` inline math starting at `index`.
#[verifier::loop_isolation(false)]
pub fn locate_inline_dollar_math_source(line: &[char], index: usize) -> (r: Option<(usize, Vec<char>)>)
    requires
        index <= line.len(),
    ensures
        match (r, spec_locate_inline_dollar_math(line@, index as int)) {
            (Some((e, b)), Some((se, sb))) => e == se && b@ == sb && index < e <= line.len(),
            (None, None) => true,
            _ => false,
        },
{
    if index >= line.len() || line[index] != '$' || (index + 1 < line.len() && line[index + 1]
        == '$') || is_escaped_ascii(line, index) {
        return None;
    }
    let mut cursor = index + 1;
    while cursor < line.len()
        invariant
            index < cursor <= line.len(),
            dollar_close_from(line@, index + 1) == dollar_close_from(line@, cursor as int),
        decreases line.len() - cursor,
    {
        if line[cursor] == '$' && !(cursor + 1 < line.len() && line[cursor + 1] == '$')
            && !is_escaped_ascii(line, cursor) {
            let body = crate::text::slice_chars(line, index + 1, cursor);
            if valid_inline_math_body(&body) && !looks_like_export_currency(
                line,
                index,
                cursor,
                &body,
            ) {
                return Some((cursor + 1, body));
            }
            return None;
        }
        cursor += 1;
    }
    None
}

/// The first position at or after `from` where `\)` starts, provided a
/// character follows it... that is, where `\` and `)` stand side by side.
pub open spec fn paren_close_from(line: Seq<char>, from: int) -> Option<int>
    decreases line.len() - from,
{
    if from < 0 || from + 1 >= line.len() {
        None
    } else if line[from] == '\\' && line[from + 1] == ')' {
        Some(from)
    } else {
        paren_close_from(line, from + 1)
    }
}

/// Inline math `\(body\)` opened at `index`: the position after `\)` and
/// the body, when the first `\)` gives a valid body.
pub open spec fn spec_locate_inline_paren_math(line: Seq<char>, index: int) -> Option<(int, Seq<char>)> {
    if !(0 <= index && index + 1 < line.len() && line[index] == '\\' && line[index + 1] == '(') {
        None
    } else {
        match paren_close_from(line, index + 2) {
            None => None,
            Some(c) => {
                let body = line.subrange(index + 2, c);
                if spec_valid_inline_math_body(body) {
                    Some((c + 2, body))
                } else {
                    None
                }
            },
        }
    }
}

/// Locates `\(...\)` inline math starting at `index`.
pub fn locate_inline_paren_math_source(line: &[char], index: usize) -> (r: Option<(usize, Vec<char>)>)
    requires
        index <= line.len(),
    ensures
        match (r, spec_locate_inline_paren_math(line@, index as int)) {
            (Some((e, b)), Some((se, sb))) => e == se && b@ == sb && index < e <= line.len(),
            (None, None) => true,
            _ => false,
        },
{
    if !(index < line.len() && line.len() - index > 1 && line[index] == '\\' && line[index + 1]
        == '(') {
        return None;
    }
    let mut cursor = index + 2;
    while cursor < line.len() && line.len() - cursor > 1
        invariant
            index + 2 <= cursor <= line.len(),
            index + 1 < line.len(),
            line@[index as int] == '\\' && line@[index + 1] == '(',
            paren_close_from(line@, index + 2) == paren_close_from(line@, cursor as int),
        decreases line.len() - cursor,
    {
        if line[cursor] == '\\' && line[cursor + 1] == ')' {
            assert(paren_close_from(line@, cursor as int) == Some(cursor as int));
            let body = crate::text::slice_chars(line, index + 2, cursor);
            if valid_inline_math_body(&body) {
                assert(paren_close_from(line@, index + 2) == Some(cursor as int));
                assert(spec_locate_inline_paren_math(line@, index as int) == Some(
                    ((cursor + 2) as int, body@),
                ));
                return Some((cursor + 2, body));
            }
            return None;
        }
        cursor += 1;
    }
    None
}

/// A `marker` at `c` that can close a superscript or subscript.
pub open spec fn script_closes_at(line: Seq<char>, c: int, marker: char) -> bool {
    &&& 0 <= c < line.len()
    &&& line[c] == marker
    &&& !spec_is_escaped_ascii(line, c)
    &&& (marker != '~' || spec_is_single_tilde_marker(line, c))
}

/// The first position at or after `from` where `marker` closes a script.
pub open spec fn script_close_from(line: Seq<char>, from: int, marker: char) -> Option<int>
    decreases line.len() - from,
{
    if from < 0 || from >= line.len() {
        None
    } else if script_closes_at(line, from, marker) {
        Some(from)
    } else {
        script_close_from(line, from + 1, marker)
    }
}

/// Every character is an ASCII letter or digit.
pub open spec fn all_ascii_alnum(s: Seq<char>) -> bool {
    forall|i: int| 0 <= i < s.len() ==> is_ascii_alnum(#[trigger] s[i])
}

/// The body of the script opened by `marker` at `index`, which starts after
/// the first `utf8_width(marker)` bytes from `index`: the position after the
/// closing marker and the body, when an ASCII letter or digit stands before
/// `index`, the body starts with one, and the body up to the first closing
/// marker is made of them.
pub open spec fn spec_locate_script_close(line: Seq<char>, index: int, marker: char) -> Option<(int, Seq<char>)> {
    match spec_previous_char(line, index) {
        None => None,
        Some(prev) => if !is_ascii_alnum(prev) {
            None
        } else {
            match drop_bytes(line.skip(index), crate::lines::utf8_width(marker) as int) {
                None => None,
                Some(after) => {
                    let body_start = line.len() - after.len();
                    if after.len() == 0 || !is_ascii_alnum(after[0]) {
                        None
                    } else {
                        match script_close_from(line, body_start, marker) {
                            None => None,
                            Some(c) => if all_ascii_alnum(line.subrange(body_start, c)) {
                                Some((c + 1, line.subrange(body_start, c)))
                            } else {
                                None
                            },
                        }
                    }
                },
            }
        },
    }
}

fn all_alnum(s: &[char]) -> (r: bool)
    ensures
        r == all_ascii_alnum(s@),
{
    let mut j: usize = 0;
    while j < s.len()
        invariant
            j <= s.len(),
            forall|x: int| 0 <= x < j ==> is_ascii_alnum(#[trigger] s@[x]),
        decreases s.len() - j,
    {
        if !is_alnum(s[j]) {
            return false;
        }
        j += 1;
    }
    true
}

/// Finds the marker that closes a superscript (`^`) or subscript (`~`)
/// opened at `index`.
#[verifier::loop_isolation(false)]
pub fn locate_script_close(line: &[char], index: usize, marker: char) -> (r: Option<(usize, Vec<char>)>)
    requires
        index <= line.len(),
        (spec_previous_char(line@, index as int) matches Some(p) && is_ascii_alnum(p)) ==> drop_bytes(
            line@.skip(index as int),
            crate::lines::utf8_width(marker) as int,
        ) is Some,
    ensures
        match (r, spec_locate_script_close(line@, index as int, marker)) {
            (Some((e, b)), Some((se, sb))) => e == se && b@ == sb && index < e <= line.len(),
            (None, None) => true,
            _ => false,
        },
{
    let prev = match previous_char(line, index) {
        None => return None,
        Some(p) => p,
    };
    if !is_alnum(prev) {
        return None;
    }
    let after = crate::text::slice_chars(line, index, line.len());
    assert(after@ == line@.skip(index as int));
    let k = match drop_bytes_count(&after, crate::lines::char_width(marker)) {
        None => return None,
        Some(k) => k,
    };
    let body_start = index + k;
    assert(line@.skip(index as int).skip(k as int) =~= line@.skip(body_start as int));
    if body_start >= line.len() || !is_alnum(line[body_start]) {
        return None;
    }
    let mut cursor = body_start;
    while cursor < line.len()
        invariant
            index < body_start <= cursor <= line.len(),
            script_close_from(line@, body_start as int, marker) == script_close_from(
                line@,
                cursor as int,
                marker,
            ),
        decreases line.len() - cursor,
    {
        if line[cursor] == marker && !is_escaped_ascii(line, cursor) && (marker != '~'
            || is_single_tilde_marker(line, cursor)) {
            let body = crate::text::slice_chars(line, body_start, cursor);
            if all_alnum(&body) {
                return Some((cursor + 1, body));
            }
            return None;
        }
        cursor += 1;
    }
    None
}

/// Which HTML element a script becomes.
#[derive(Clone, Copy, PartialEq, Eq, Structural, Debug)]
pub enum ScriptTag {
    Sup,
    Sub,
}

impl ScriptTag {
    /// The element name, `sup` or `sub`.
    pub fn name(&self) -> (r: &'static str)
        ensures
            r@ == (match self {
                ScriptTag::Sup => "sup"@,
                ScriptTag::Sub => "sub"@,
            }),
    {
        match self {
            ScriptTag::Sup => "sup",
            ScriptTag::Sub => "sub",
        }
    }
}

/// A superscript `x^2^` or subscript `H~2~O` opened at `index`: the position
/// after the closing marker, the body and the element.
pub open spec fn spec_locate_inline_script(line: Seq<char>, index: int) -> Option<(int, Seq<char>, ScriptTag)> {
    if spec_is_escaped_ascii(line, index) {
        None
    } else if 0 <= index < line.len() && line[index] == '^' {
        match spec_locate_script_close(line, index, '^') {
            Some((e, b)) => Some((e, b, ScriptTag::Sup)),
            None => None,
        }
    } else if spec_is_single_tilde_marker(line, index) {
        match spec_locate_script_close(line, index, '~') {
            Some((e, b)) => Some((e, b, ScriptTag::Sub)),
            None => None,
        }
    } else {
        None
    }
}

proof fn lemma_drop_one_ascii(line: Seq<char>, index: int)
    requires
        0 <= index < line.len(),
        (line[index] as u32) < 0x80,
    ensures
        drop_bytes(line.skip(index), 1) == Some(line.skip(index + 1)),
{
    let s = line.skip(index);
    assert(s[0] == line[index]);
    assert(crate::lines::utf8_width(s[0]) == 1);
    assert(s.drop_first() =~= line.skip(index + 1));
    assert(drop_bytes(s.drop_first(), 0) == Some(s.drop_first()));
    assert(drop_bytes(s, 1) == drop_bytes(s.drop_first(), 0));
}

/// Locates a superscript or subscript starting at `index`.
pub fn locate_inline_script_source(line: &[char], index: usize) -> (r: Option<(usize, Vec<char>, ScriptTag)>)
    requires
        index <= line.len(),
    ensures
        match (r, spec_locate_inline_script(line@, index as int)) {
            (Some((e, b, t)), Some((se, sb, st))) => e == se && b@ == sb && t == st && index < e
                <= line.len(),
            (None, None) => true,
            _ => false,
        },
{
    if is_escaped_ascii(line, index) {
        return None;
    }
    if index < line.len() && line[index] == '^' {
        proof {
            lemma_drop_one_ascii(line@, index as int);
        }
        match locate_script_close(line, index, '^') {
            Some((e, b)) => Some((e, b, ScriptTag::Sup)),
            None => None,
        }
    } else if is_single_tilde_marker(line, index) {
        proof {
            lemma_drop_one_ascii(line@, index as int);
        }
        match locate_script_close(line, index, '~') {
            Some((e, b)) => Some((e, b, ScriptTag::Sub)),
            None => None,
        }
    } else {
        None
    }
}

// ---------------------------------------------------------------------------
// Inline segments
// ---------------------------------------------------------------------------
/// A piece of one line for inline rendering.
#[derive(PartialEq, Eq, Debug)]
pub enum InlineSegment {
    /// Text kept as it is (a code span, or a single character).
    Text(String),
    /// Inline math: its source, delimiters included, and its body.
    Math { source: String, body: String },
    /// A superscript or subscript and its body.
    Script { tag: ScriptTag, body: String },
}

/// The spec form of an `InlineSegment`.
pub enum SegmentView {
    Text(Seq<char>),
    Math(Seq<char>, Seq<char>),
    Script(ScriptTag, Seq<char>),
}

impl InlineSegment {
    pub open spec fn view(&self) -> SegmentView {
        match self {
            InlineSegment::Text(t) => SegmentView::Text(t@),
            InlineSegment::Math { source, body } => SegmentView::Math(source@, body@),
            InlineSegment::Script { tag, body } => SegmentView::Script(*tag, body@),
        }
    }
}

pub open spec fn segments_view(v: Seq<InlineSegment>) -> Seq<SegmentView> {
    v.map_values(|x: InlineSegment| x.view())
}

/// A code span opened at `i`: one past its closing backtick run.
pub open spec fn code_span_end(line: Seq<char>, i: int) -> Option<int> {
    if 0 <= i < line.len() && line[i] == '`' {
        let n = run_len(line.skip(i), '`');
        match spec_find_backtick_run(line, i + n, n) {
            Some(c) => Some(c + n),
            None => None,
        }
    } else {
        None
    }
}

/// Inline math opened at `i`, `$...$` first, then `\\(...\\)`.
pub open spec fn math_at(line: Seq<char>, i: int) -> Option<(int, Seq<char>)> {
    match spec_locate_inline_dollar_math(line, i) {
        Some(m) => Some(m),
        None => spec_locate_inline_paren_math(line, i),
    }
}

/// The segments of `line` from position `i` on: code spans are kept whole,
/// then inline math and scripts are recognized, and any other character is
/// kept on its own.
pub open spec fn segments_from(line: Seq<char>, i: int) -> Seq<SegmentView>
    decreases line.len() - i,
{
    if i < 0 || i >= line.len() {
        Seq::empty()
    } else {
        match code_span_end(line, i) {
            Some(e) => if i < e <= line.len() {
                seq![SegmentView::Text(line.subrange(i, e))] + segments_from(line, e)
            } else {
                Seq::empty()
            },
            None => match math_at(line, i) {
                Some((e, body)) => if i < e <= line.len() {
                    seq![SegmentView::Math(line.subrange(i, e), body)] + segments_from(line, e)
                } else {
                    Seq::empty()
                },
                None => match spec_locate_inline_script(line, i) {
                    Some((e, body, tag)) => if i < e <= line.len() {
                        seq![SegmentView::Script(tag, body)] + segments_from(line, e)
                    } else {
                        Seq::empty()
                    },
                    None => seq![SegmentView::Text(seq![line[i]])] + segments_from(line, i + 1),
                },
            },
        }
    }
}

proof fn lemma_segments_push(done: Seq<SegmentView>, x: SegmentView, rest: Seq<SegmentView>)
    ensures
        done.push(x) + rest == done + (seq![x] + rest),
{
    assert(done.push(x) + rest =~= done + (seq![x] + rest));
}

fn code_span_at(line: &[char], i: usize) -> (r: Option<usize>)
    requires
        i < line.len(),
    ensures
        match (r, code_span_end(line@, i as int)) {
            (Some(e), Some(se)) => e == se && i < e <= line.len(),
            (None, None) => true,
            _ => false,
        },
{
    if line[i] != '`' {
        return None;
    }
    let n = count_run(line, i, '`');
    proof {
        lemma_run_len(line@.skip(i as int), '`');
    }
    match find_backtick_run(line, i + n, n) {
        Some(c) => Some(c + n),
        None => None,
    }
}

/// Splits one line into segments for inline rendering.
pub fn rewrite_inline_math_line(line: &[char]) -> (out: Vec<InlineSegment>)
    ensures
        segments_view(out@) == segments_from(line@, 0),
{
    let ghost all = segments_from(line@, 0);
    let mut out: Vec<InlineSegment> = Vec::new();
    let mut index: usize = 0;
    assert(segments_view(out@) + all =~= all);
    while index < line.len()
        invariant
            index <= line.len(),
            all == segments_from(line@, 0),
            segments_view(out@) + segments_from(line@, index as int) == all,
        decreases line.len() - index,
    {
        let ghost done = segments_view(out@);
        match code_span_at(line, index) {
            Some(e) => {
                let text = crate::text::slice_chars(line, index, e);
                proof {
                    lemma_segments_push(
                        done,
                        SegmentView::Text(text@),
                        segments_from(line@, e as int),
                    );
                }
                out.push(InlineSegment::Text(string_of(&text)));
                assert(segments_view(out@) =~= done.push(SegmentView::Text(text@)));
                index = e;
                continue;
            },
            None => {},
        }
        let math = match locate_inline_dollar_math_source(line, index) {
            Some(m) => Some(m),
            None => locate_inline_paren_math_source(line, index),
        };
        match math {
            Some((e, body)) => {
                let source = crate::text::slice_chars(line, index, e);
                proof {
                    lemma_segments_push(
                        done,
                        SegmentView::Math(source@, body@),
                        segments_from(line@, e as int),
                    );
                }
                out.push(InlineSegment::Math { source: string_of(&source), body: string_of(&body) });
                assert(segments_view(out@) =~= done.push(SegmentView::Math(source@, body@)));
                index = e;
                continue;
            },
            None => {},
        }
        match locate_inline_script_source(line, index) {
            Some((e, body, tag)) => {
                proof {
                    lemma_segments_push(
                        done,
                        SegmentView::Script(tag, body@),
                        segments_from(line@, e as int),
                    );
                }
                out.push(InlineSegment::Script { tag, body: string_of(&body) });
                assert(segments_view(out@) =~= done.push(SegmentView::Script(tag, body@)));
                index = e;
            },
            None => {
                let c = line[index];
                proof {
                    lemma_segments_push(
                        done,
                        SegmentView::Text(seq![c]),
                        segments_from(line@, index + 1),
                    );
                }
                let mut single: Vec<char> = Vec::new();
                single.push(c);
                out.push(InlineSegment::Text(string_of(&single)));
                assert(single@ =~= seq![c]);
                assert(segments_view(out@) =~= done.push(SegmentView::Text(seq![c])));
                index += 1;
            },
        }
    }
    assert(segments_view(out@) + Seq::<SegmentView>::empty() =~= segments_view(out@));
    out
}

/// The segments of each line from line `i` on, when the scan is inside the
/// fenced code block described by `fence` (or outside any). Lines of fenced
/// code and fence lines are one text segment each.
pub open spec fn inline_lines_from(lines: Seq<Seq<char>>, i: int, fence: Option<(char, nat)>) -> Seq<Seq<SegmentView>>
    decreases lines.len() - i,
{
    if i < 0 || i >= lines.len() {
        Seq::empty()
    } else {
        match fence {
            Some((m, r)) => seq![seq![SegmentView::Text(lines[i])]] + inline_lines_from(
                lines,
                i + 1,
                if spec_is_closing_fence(lines[i], m, r) {
                    None
                } else {
                    fence
                },
            ),
            None => match spec_opening_fence(lines[i]) {
                Some(f) => seq![seq![SegmentView::Text(lines[i])]] + inline_lines_from(
                    lines,
                    i + 1,
                    Some(f),
                ),
                None => seq![segments_from(lines[i], 0)] + inline_lines_from(lines, i + 1, None),
            },
        }
    }
}

pub open spec fn segment_lines_view(v: Seq<Vec<InlineSegment>>) -> Seq<Seq<SegmentView>> {
    v.map_values(|l: Vec<InlineSegment>| segments_view(l@))
}

/// The segments of every line of `markdown` for inline rendering.
pub open spec fn spec_inline_lines(markdown: Seq<char>) -> Seq<Seq<SegmentView>> {
    inline_lines_from(text_lines(markdown), 0, None)
}

proof fn lemma_lines_push(done: Seq<Seq<SegmentView>>, x: Seq<SegmentView>, rest: Seq<Seq<SegmentView>>)
    ensures
        done.push(x) + rest == done + (seq![x] + rest),
{
    assert(done.push(x) + rest =~= done + (seq![x] + rest));
}

/// Splits every line of `markdown` outside fenced code into segments for
/// inline rendering; lines of fenced code stay whole.
pub fn rewrite_inline_math(markdown: &str) -> (out: Vec<Vec<InlineSegment>>)
    ensures
        segment_lines_view(out@) == spec_inline_lines(markdown@),
{
    let lines = split_lines(&chars_of(markdown));
    let ghost ls = lines_view(lines@);
    let ghost all = inline_lines_from(ls, 0, None);
    let mut out: Vec<Vec<InlineSegment>> = Vec::new();
    let mut index: usize = 0;
    let mut fence: Option<(char, usize)> = None;
    assert(segment_lines_view(out@) + all =~= all);
    while index < lines.len()
        invariant
            index <= lines.len(),
            ls == lines_view(lines@),
            ls.len() == lines.len(),
            all == inline_lines_from(ls, 0, None),
            segment_lines_view(out@) + inline_lines_from(
                ls,
                index as int,
                match fence {
                    Some((m, r)) => Some((m, r as nat)),
                    None => None,
                },
            ) == all,
        decreases lines.len() - index,
    {
        let ghost done = segment_lines_view(out@);
        assert(ls[index as int] == lines@[index as int]@);
        let line = &lines[index];
        let whole = match fence {
            Some((marker, run)) => {
                if is_closing_fence(line, marker, run) {
                    fence = None;
                }
                true
            },
            None => {
                match opening_fence(line) {
                    Some(f) => {
                        fence = Some(f);
                        true
                    },
                    None => false,
                }
            },
        };
        let segs = if whole {
            let mut v: Vec<InlineSegment> = Vec::new();
            v.push(InlineSegment::Text(string_of(line)));
            assert(segments_view(v@) =~= seq![SegmentView::Text(line@)]);
            v
        } else {
            rewrite_inline_math_line(line)
        };
        proof {
            lemma_lines_push(
                done,
                segments_view(segs@),
                inline_lines_from(
                    ls,
                    index + 1,
                    match fence {
                        Some((m, r)) => Some((m, r as nat)),
                        None => None,
                    },
                ),
            );
        }
        out.push(segs);
        assert(segment_lines_view(out@) =~= done.push(segments_view(segs@)));
        index += 1;
    }
    assert(segment_lines_view(out@) + Seq::<Seq<SegmentView>>::empty() =~= segment_lines_view(
        out@,
    ));
    out
}

// ---------------------------------------------------------------------------
// Rendered replacements
// ---------------------------------------------------------------------------
/// The HTML of one inline segment, given the SVG rendered for it when it
/// is math (`None` when rendering failed): math becomes the SVG in a
/// `vlt-inline-math` span, or its escaped source; a script becomes its
/// element around the escaped body; text stays as it is.
pub open spec fn segment_html(seg: SegmentView, svg: Option<Seq<char>>) -> Seq<char> {
    match seg {
        SegmentView::Text(t) => t,
        SegmentView::Math(source, _) => match svg {
            Some(out) => "<span class=\"vlt-inline-math\">"@ + out + "</span>"@,
            None => spec_escape_html(source),
        },
        SegmentView::Script(tag, body) => {
            let name = match tag {
                ScriptTag::Sup => "sup"@,
                ScriptTag::Sub => "sub"@,
            };
            "<"@ + name + ">"@ + spec_escape_html(body) + "</"@ + name + ">"@
        },
    }
}

/// The HTML of the first `n` segments.
pub open spec fn segments_html(segs: Seq<SegmentView>, svgs: Seq<Option<Seq<char>>>, n: int) -> Seq<char>
    decreases n,
{
    if n <= 0 {
        Seq::empty()
    } else {
        segments_html(segs, svgs, n - 1) + segment_html(segs[n - 1], svgs[n - 1])
    }
}

pub open spec fn opt_view(v: Seq<Option<String>>) -> Seq<Option<Seq<char>>> {
    v.map_values(
        |o: Option<String>|
            match o {
                Some(s) => Some(s@),
                None => None,
            },
    )
}

/// Assembles the HTML of a line from its segments and, for each segment,
/// the SVG rendered for it if it is math and rendering succeeded.
pub fn inline_line_html(segments: &[InlineSegment], svgs: &[Option<String>]) -> (r: String)
    requires
        svgs.len() == segments.len(),
    ensures
        r@ == segments_html(segments_view(segments@), opt_view(svgs@), segments.len() as int),
{
    let ghost sv = segments_view(segments@);
    let ghost ov = opt_view(svgs@);
    let mut out = String::new();
    let mut i: usize = 0;
    while i < segments.len()
        invariant
            i <= segments.len() == svgs.len(),
            sv == segments_view(segments@),
            ov == opt_view(svgs@),
            out@ == segments_html(sv, ov, i as int),
        decreases segments.len() - i,
    {
        assert(sv[i as int] == segments@[i as int].view());
        let ghost before = out@;
        match &segments[i] {
            InlineSegment::Text(t) => {
                crate::text::append_str(&mut out, t.as_str());
            },
            InlineSegment::Math { source, .. } => match &svgs[i] {
                Some(svg) => {
                    crate::text::append_str(&mut out, "<span class=\"vlt-inline-math\">");
                    crate::text::append_str(&mut out, svg.as_str());
                    crate::text::append_str(&mut out, "</span>");
                    assert(out@ =~= before + ("<span class=\"vlt-inline-math\">"@ + svg@
                        + "</span>"@));
                },
                None => {
                    crate::text::append_str(&mut out, escape_html(source.as_str()).as_str());
                },
            },
            InlineSegment::Script { tag, body } => {
                let name = tag.name();
                crate::text::append_str(&mut out, "<");
                crate::text::append_str(&mut out, name);
                crate::text::append_str(&mut out, ">");
                crate::text::append_str(&mut out, escape_html(body.as_str()).as_str());
                crate::text::append_str(&mut out, "</");
                crate::text::append_str(&mut out, name);
                crate::text::append_str(&mut out, ">");
                assert(out@ =~= before + ("<"@ + name@ + ">"@ + spec_escape_html(body@) + "</"@
                    + name@ + ">"@));
            },
        }
        assert(out@ == before + segment_html(sv[i as int], ov[i as int]));
        i += 1;
    }
    out
}

/// How a display-math or diagram block came out: its source could not be
/// read, it rendered to an SVG, or rendering failed.
pub enum BlockRender {
    Unparsed,
    Rendered(String),
    Failed,
}

/// Which kind of rendered block.
#[derive(Clone, Copy, PartialEq, Eq, Structural, Debug)]
pub enum RenderedBlockKind {
    Math,
    Mermaid,
}

/// The HTML that replaces a rendered block: the raw text when its source
/// could not be read, the SVG in a `vlt-math` or `vlt-mermaid` div, or the
/// escaped raw text in a `vlt-math-error` or `vlt-mermaid-error` block.
pub open spec fn spec_rendered_block_html(kind: RenderedBlockKind, raw: Seq<char>, render: BlockRender) -> Seq<char> {
    let class = match kind {
        RenderedBlockKind::Math => "vlt-math"@,
        RenderedBlockKind::Mermaid => "vlt-mermaid"@,
    };
    match render {
        BlockRender::Unparsed => raw,
        BlockRender::Rendered(svg) => "<div class=\""@ + class + "\">"@ + svg@ + "</div>"@,
        BlockRender::Failed => "<pre class=\""@ + class + "-error\">"@ + spec_escape_html(raw)
            + "</pre>"@,
    }
}

pub fn rendered_block_html(kind: RenderedBlockKind, raw: &str, render: &BlockRender) -> (r: String)
    ensures
        r@ == spec_rendered_block_html(kind, raw@, *render),
{
    let class = match kind {
        RenderedBlockKind::Math => "vlt-math",
        RenderedBlockKind::Mermaid => "vlt-mermaid",
    };
    match render {
        BlockRender::Unparsed => raw.to_owned(),
        BlockRender::Rendered(svg) => {
            let mut out = "<div class=\"".to_owned();
            crate::text::append_str(&mut out, class);
            crate::text::append_str(&mut out, "\">");
            crate::text::append_str(&mut out, svg.as_str());
            crate::text::append_str(&mut out, "</div>");
            out
        },
        BlockRender::Failed => {
            let mut out = "<pre class=\"".to_owned();
            crate::text::append_str(&mut out, class);
            crate::text::append_str(&mut out, "-error\">");
            crate::text::append_str(&mut out, escape_html(raw).as_str());
            crate::text::append_str(&mut out, "</pre>");
            out
        },
    }
}

// ---------------------------------------------------------------------------
// The HTML document
// ---------------------------------------------------------------------------
/// The Markdown extensions turned on for export: tables, footnotes,
/// strikethrough, task lists and GitHub-style blockquote alerts (the bits
/// of `pulldown_cmark::Options`).
pub const EXPORT_MARKDOWN_OPTIONS: u32 = 2 | 4 | 8 | 16 | 2048;

/// The HTML that pulldown-cmark renders for `markdown` with the extension
/// bits `options`.
pub uninterp spec fn commonmark_html(markdown: Seq<char>, options: u32) -> Seq<char>;

/// Renders Markdown to HTML.
///
/// Trusted: parses with `pulldown_cmark::Parser::new_ext` under the
/// options `options` (unknown bits dropped) and writes the events with
/// `pulldown_cmark::html::push_html` into an empty string. The claim is
/// only that the result is a function of the text and the options; what
/// HTML comes out is not stated.
#[verifier::external_body]
fn markdown_to_html(markdown: &str, options: u32) -> (html: String)
    ensures
        html@ == commonmark_html(markdown@, options),
{
    let parser = pulldown_cmark::Parser::new_ext(
        markdown,
        pulldown_cmark::Options::from_bits_truncate(options),
    );
    let mut html = String::new();
    pulldown_cmark::html::push_html(&mut html, parser);
    html
}

/// A full HTML page: the escaped title, the style sheet, and the body in a
/// `<main class="vlt-document">`.
pub open spec fn spec_html_document(title: Seq<char>, css: Seq<char>, body: Seq<char>) -> Seq<char> {
    "<!doctype html>\n<html lang=\"en\">\n<head>\n<meta charset=\"utf-8\">\n<meta name=\"viewport\" content=\"width=device-width, initial-scale=1\">\n<title>"@
        + spec_escape_html(title) + "</title>\n<style>\n"@ + css
        + "\n</style>\n</head>\n<body>\n<main class=\"vlt-document\">\n"@ + body
        + "</main>\n</body>\n</html>\n"@
}

/// Wraps rendered HTML into a page.
pub fn html_document(title: &str, css: &str, body: &str) -> (r: String)
    ensures
        r@ == spec_html_document(title@, css@, body@),
{
    let mut r = "<!doctype html>\n<html lang=\"en\">\n<head>\n<meta charset=\"utf-8\">\n<meta name=\"viewport\" content=\"width=device-width, initial-scale=1\">\n<title>".to_owned();
    crate::text::append_str(&mut r, escape_html(title).as_str());
    crate::text::append_str(&mut r, "</title>\n<style>\n");
    crate::text::append_str(&mut r, css);
    crate::text::append_str(
        &mut r,
        "\n</style>\n</head>\n<body>\n<main class=\"vlt-document\">\n",
    );
    crate::text::append_str(&mut r, body);
    crate::text::append_str(&mut r, "</main>\n</body>\n</html>\n");
    r
}

/// Renders Markdown, already rewritten for export, into a full HTML page
/// with the style sheet `css`.
pub fn render_html(markdown: &str, css: &str, title: &str) -> (r: String)
    ensures
        r@ == spec_html_document(title@, css@, commonmark_html(markdown@, EXPORT_MARKDOWN_OPTIONS)),
{
    let body = markdown_to_html(markdown, EXPORT_MARKDOWN_OPTIONS);
    html_document(title, css, body.as_str())
}

/// A raw HTML block shown as escaped, preformatted text: the form the
/// export gives raw HTML it does not pass through.
pub open spec fn escaped_html_block(raw: Seq<char>) -> Seq<char> {
    "<pre class=\"vlt-raw-html\">"@ + spec_escape_html(raw) + "</pre>"@
}

/// An HTML block that is passed through on export: a `vlt-comment`
/// preformatted block with no markup inside, the form comment blocks are
/// given.
pub open spec fn is_passed_html(raw: Seq<char>) -> bool {
    let open = "<pre class=\"vlt-comment\">"@;
    let close = "</pre>"@;
    &&& raw.len() >= open.len() + close.len()
    &&& seq_starts_with(raw, open)
    &&& seq_ends_with(raw, close)
    &&& forall|i: int|
        open.len() <= i < raw.len() - close.len() ==> #[trigger] raw[i] != '<'
}

/// A raw HTML block on export: passed through when it is a comment block
/// as the export shows it, shown escaped otherwise.
pub open spec fn exported_html_block(raw: Seq<char>) -> Seq<char> {
    if is_passed_html(raw) {
        raw
    } else {
        escaped_html_block(raw)
    }
}

/// Comment blocks, as the export shows them, pass the raw-HTML step.
pub proof fn law_visible_comments_pass(raw: Seq<char>)
    ensures
        is_passed_html(visible_comment(raw)),
{
    reveal_strlit("<pre class=\"vlt-comment\">");
    reveal_strlit("</pre>");
    law_escaped_text_is_markup_free(raw);
    let open = "<pre class=\"vlt-comment\">"@;
    let close = "</pre>"@;
    let e = spec_escape_html(raw);
    let v = visible_comment(raw);
    assert(v.take(open.len() as int) =~= open);
    assert(v.skip(v.len() - close.len()) =~= close);
    assert forall|i: int| open.len() <= i < v.len() - close.len() implies #[trigger] v[i] != '<' by {
        assert(v[i] == e[i - open.len()]);
    }
}

/// What a block of `kind` becomes on export when nothing renders it: a
/// comment is shown escaped, raw HTML as `exported_html_block` says, and
/// display math
/// takes its rendering-failed form (escaped, in `vlt-math-error`).
pub open spec fn unrendered_block(kind: BlockKind, raw: Seq<char>) -> Seq<char> {
    match kind {
        BlockKind::Comment => visible_comment(raw),
        BlockKind::RawHtml => exported_html_block(raw),
        BlockKind::DisplayMath => spec_rendered_block_html(
            RenderedBlockKind::Math,
            raw,
            BlockRender::Failed,
        ),
    }
}

/// The text of each piece, blocks of `kind` replaced.
pub open spec fn unrendered_piece_texts(kind: BlockKind, pieces: Seq<PieceView>) -> Seq<Seq<char>> {
    pieces.map_values(
        |p: PieceView|
            match p {
                PieceView::Line(l) => l,
                PieceView::Block(raw) => unrendered_block(kind, raw),
            },
    )
}

/// The Markdown text with every block of `kind` outside fenced code
/// replaced by its unrendered form.
pub open spec fn spec_replace_blocks(kind: BlockKind, markdown: Seq<char>) -> Seq<char> {
    join_sep(unrendered_piece_texts(kind, spec_pieces(kind, markdown)))
}

fn passed_html(raw: &str) -> (r: bool)
    ensures
        r == is_passed_html(raw@),
{
    let s = chars_of(raw);
    let open = chars_of("<pre class=\"vlt-comment\">");
    let close = chars_of("</pre>");
    if s.len() < open.len() || s.len() - open.len() < close.len() || !starts_with(&s, &open)
        || !ends_with(&s, &close) {
        return false;
    }
    let end = s.len() - close.len();
    let mut i = open.len();
    while i < end
        invariant
            open.len() <= i <= end,
            end == s.len() - close.len(),
            s@ == raw@,
            open@ == "<pre class=\"vlt-comment\">"@,
            close@ == "</pre>"@,
            forall|j: int| open.len() <= j < i ==> #[trigger] s@[j] != '<',
        decreases end - i,
    {
        if s[i] == '<' {
            return false;
        }
        i += 1;
    }
    true
}

fn unrendered_block_text(kind: BlockKind, raw: &str) -> (r: String)
    ensures
        r@ == unrendered_block(kind, raw@),
{
    match kind {
        BlockKind::Comment => {
            let mut r = "<pre class=\"vlt-comment\">".to_owned();
            crate::text::append_str(&mut r, escape_html(raw).as_str());
            crate::text::append_str(&mut r, "</pre>");
            r
        },
        BlockKind::RawHtml => {
            if passed_html(raw) {
                return raw.to_owned();
            }
            let mut r = "<pre class=\"vlt-raw-html\">".to_owned();
            crate::text::append_str(&mut r, escape_html(raw).as_str());
            crate::text::append_str(&mut r, "</pre>");
            r
        },
        BlockKind::DisplayMath => rendered_block_html(
            RenderedBlockKind::Math,
            raw,
            &BlockRender::Failed,
        ),
    }
}

/// Replaces every block of `kind` outside fenced code by its unrendered
/// form.
pub fn replace_blocks(kind: BlockKind, markdown: &str) -> (out: String)
    ensures
        out@ == spec_replace_blocks(kind, markdown@),
{
    let lines = split_lines(&chars_of(markdown));
    let pieces = split_pieces(kind, &lines);
    let ghost pv = pieces_view(pieces@);
    let ghost want = unrendered_piece_texts(kind, pv);
    let mut texts: Vec<Vec<char>> = Vec::new();
    let mut i: usize = 0;
    while i < pieces.len()
        invariant
            i <= pieces.len(),
            pv == pieces_view(pieces@),
            want == unrendered_piece_texts(kind, pv),
            lines_view(texts@) == want.take(i as int),
        decreases pieces.len() - i,
    {
        let ghost before = texts@;
        assert(pv[i as int] == pieces@[i as int].view());
        let text = match &pieces[i] {
            ExportPiece::Line(l) => chars_of(l.as_str()),
            ExportPiece::Block(raw) => chars_of(unrendered_block_text(kind, raw.as_str()).as_str()),
        };
        assert(text@ == want[i as int]);
        texts.push(text);
        assert(texts@ == before.push(text));
        assert(lines_view(texts@) =~= lines_view(before).push(text@));
        assert(lines_view(texts@) =~= want.take(i + 1));
        i += 1;
    }
    assert(want.take(pieces.len() as int) =~= want);
    string_of(&join_all(&texts))
}

/// The HTML of a line of segments when no math was rendered to an SVG:
/// math keeps its escaped source, as it does when rendering fails.
pub open spec fn line_text_html(segs: Seq<SegmentView>) -> Seq<char> {
    segments_html(segs, Seq::new(segs.len(), |i: int| None::<Seq<char>>), segs.len() as int)
}

/// The Markdown handed to the renderer on export, with no HTML sanitizer
/// and no math renderer at hand: comment blocks made visible, other raw
/// HTML blocks shown escaped, display math in its rendering-failed form, then
/// every line outside fenced code with its `^sup^` and `~sub~` scripts
/// turned into elements and its inline math escaped.
pub open spec fn spec_rewrite_for_export(markdown: Seq<char>) -> Seq<char> {
    let commented = spec_rewrite_visible_comment_blocks(markdown);
    let html = spec_replace_blocks(BlockKind::RawHtml, commented);
    let math = spec_replace_blocks(BlockKind::DisplayMath, html);
    join_sep(spec_inline_lines(math).map_values(|segs: Seq<SegmentView>| line_text_html(segs)))
}

fn no_svgs(n: usize) -> (r: Vec<Option<String>>)
    ensures
        r.len() == n,
        opt_view(r@) == Seq::new(n as nat, |i: int| None::<Seq<char>>),
{
    let mut r: Vec<Option<String>> = Vec::new();
    while r.len() < n
        invariant
            r.len() <= n,
            forall|i: int| 0 <= i < r.len() ==> r@[i] is None,
        decreases n - r.len(),
    {
        r.push(None);
    }
    assert(opt_view(r@) =~= Seq::new(n as nat, |i: int| None::<Seq<char>>));
    r
}

/// Rewrites Markdown for export: comment blocks become visible, raw HTML
/// blocks and display math are shown escaped, then each line outside
/// fenced code gets its scripts as `<sup>`/`<sub>` elements and its math
/// as escaped source.
pub fn rewrite_for_export(markdown: &str) -> (r: String)
    ensures
        r@ == spec_rewrite_for_export(markdown@),
{
    let commented = rewrite_visible_comment_blocks(markdown);
    let html = replace_blocks(BlockKind::RawHtml, commented.as_str());
    let math = replace_blocks(BlockKind::DisplayMath, html.as_str());
    let lines = rewrite_inline_math(math.as_str());
    let ghost segs = segment_lines_view(lines@);
    let ghost want = segs.map_values(|s: Seq<SegmentView>| line_text_html(s));
    let mut out: Vec<Vec<char>> = Vec::new();
    let mut i: usize = 0;
    while i < lines.len()
        invariant
            i <= lines.len(),
            segs == segment_lines_view(lines@),
            want == segs.map_values(|s: Seq<SegmentView>| line_text_html(s)),
            lines_view(out@) == want.take(i as int),
        decreases lines.len() - i,
    {
        let line = &lines[i];
        assert(segs[i as int] == segments_view(line@));
        let svgs = no_svgs(line.len());
        let html = inline_line_html(line.as_slice(), svgs.as_slice());
        let chars = chars_of(html.as_str());
        assert(segs[i as int].len() == line.len());
        assert(html@ == line_text_html(segs[i as int]));
        assert(want[i as int] == line_text_html(segs[i as int]));
        let ghost before = out@;
        out.push(chars);
        assert(out@ == before.push(chars));
        assert(lines_view(out@) =~= lines_view(before).push(chars@));
        assert(lines_view(out@) =~= want.take(i + 1));
        i += 1;
    }
    assert(want.take(lines.len() as int) =~= want);
    string_of(&join_all(&out))
}

/// Rewrites Markdown for export and renders it into a full HTML page with
/// the style sheet `css`.
pub fn export_html(markdown: &str, css: &str, title: &str) -> (r: String)
    ensures
        r@ == spec_html_document(
            title@,
            css@,
            commonmark_html(spec_rewrite_for_export(markdown@), EXPORT_MARKDOWN_OPTIONS),
        ),
{
    let rewritten = rewrite_for_export(markdown);
    render_html(rewritten.as_str(), css, title)
}

} // verus!
