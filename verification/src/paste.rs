//! Classification helpers for rendered-mode external paste.
//!
//! File import keeps CommonMark paragraph semantics, but paste should match
//! the user's visual expectation more closely. Plain physical lines become
//! separate blocks, while structural Markdown and block/risky HTML are left to
//! the document block builder.
//!
//! A line is given as the sequence of its characters.
use vstd::prelude::*;

use crate::text::{
    chars_eq, chars_of, contains, extend_chars, is_alnum, is_ascii_alnum, is_ascii_digit,
    is_ascii_whitespace, is_ascii_ws, is_blank, is_blank_chars, is_digit, lower_seq, lowercase,
    seq_contains, seq_starts_with, slice_chars, starts_with, trim_start, trim_start_chars,
};

verus! {

broadcast use vstd::string::group_string_axioms;

// ---------------------------------------------------------------------------
// Specification
// ---------------------------------------------------------------------------
/// HTML elements whose content model is phrasing content (inline elements).
pub open spec fn spec_is_inline_tag(name: Seq<char>) -> bool {
    ||| name == "a"@
    ||| name == "abbr"@
    ||| name == "b"@
    ||| name == "bdi"@
    ||| name == "bdo"@
    ||| name == "big"@
    ||| name == "br"@
    ||| name == "cite"@
    ||| name == "code"@
    ||| name == "data"@
    ||| name == "del"@
    ||| name == "dfn"@
    ||| name == "em"@
    ||| name == "font"@
    ||| name == "i"@
    ||| name == "img"@
    ||| name == "ins"@
    ||| name == "kbd"@
    ||| name == "mark"@
    ||| name == "q"@
    ||| name == "s"@
    ||| name == "samp"@
    ||| name == "small"@
    ||| name == "span"@
    ||| name == "strike"@
    ||| name == "strong"@
    ||| name == "sub"@
    ||| name == "sup"@
    ||| name == "time"@
    ||| name == "tt"@
    ||| name == "u"@
    ||| name == "var"@
    ||| name == "wbr"@
}

/// Characters allowed in an HTML tag name.
pub open spec fn is_tag_name_char(c: char) -> bool {
    is_ascii_alnum(c) || c == '-'
}

/// Length of the longest prefix of `s` made of tag-name characters.
pub open spec fn tag_name_len(s: Seq<char>) -> nat
    decreases s.len(),
{
    if s.len() > 0 && is_tag_name_char(s[0]) {
        1 + tag_name_len(s.drop_first())
    } else {
        0
    }
}

/// The lower-cased name of the HTML tag that opens `trimmed`, if the line
/// starts with an opening tag whose name is followed by `>`, a blank or `/`.
pub open spec fn spec_leading_html_tag_name(trimmed: Seq<char>) -> Option<Seq<char>> {
    if trimmed.len() == 0 || trimmed[0] != '<' {
        None
    } else {
        let tagged = trimmed.drop_first();
        let n = tag_name_len(tagged);
        if tagged.len() > 0 && (tagged[0] == '/' || tagged[0] == '!' || tagged[0] == '?') {
            None
        } else if n == 0 || n >= tagged.len() {
            None
        } else if tagged[n as int] == '>' || tagged[n as int] == ' ' || tagged[n as int] == '\t'
            || tagged[n as int] == '/' {
            Some(lower_seq(tagged.take(n as int)))
        } else {
            None
        }
    }
}

/// The closing tag `</name>`.
pub open spec fn closing_tag(name: Seq<char>) -> Seq<char> {
    seq!['<', '/'] + name + seq!['>']
}

/// A line that opens with a closed, safe inline HTML element.
pub open spec fn spec_is_closed_inline_html_line(trimmed: Seq<char>) -> bool {
    match spec_leading_html_tag_name(trimmed) {
        None => false,
        Some(name) => {
            let lower = lower_seq(trimmed);
            &&& spec_is_inline_tag(name)
            &&& !seq_contains(lower, "<script"@)
            &&& !seq_contains(lower, "<style"@)
            &&& seq_contains(lower, closing_tag(name))
        },
    }
}

/// Index of the first `.` or `)` in `s`.
pub open spec fn first_list_delimiter(s: Seq<char>) -> Option<int> {
    if exists|i: int| 0 <= i < s.len() && (s[i] == '.' || s[i] == ')') {
        Some(
            choose|i: int|
                0 <= i < s.len() && (s[i] == '.' || s[i] == ')') && forall|j: int|
                    0 <= j < i ==> s[j] != '.' && s[j] != ')',
        )
    } else {
        None
    }
}

/// `- `, `* `, `+ ` bullets and `1. ` / `1) ` ordered markers (up to nine
/// digits).
pub open spec fn spec_is_simple_list_marker(trimmed: Seq<char>) -> bool {
    if trimmed.len() >= 2 && (trimmed[0] == '-' || trimmed[0] == '*' || trimmed[0] == '+')
        && is_ascii_ws(trimmed[1]) {
        true
    } else {
        match first_list_delimiter(trimmed) {
            None => false,
            Some(k) => {
                &&& 0 < k <= 9
                &&& forall|j: int| 0 <= j < k ==> is_ascii_digit(#[trigger] trimmed[j])
                &&& k + 1 < trimmed.len()
                &&& is_ascii_ws(trimmed[k + 1])
            },
        }
    }
}

/// Number of leading `#` characters.
pub open spec fn hash_run(s: Seq<char>) -> nat
    decreases s.len(),
{
    if s.len() > 0 && s[0] == '#' {
        1 + hash_run(s.drop_first())
    } else {
        0
    }
}

/// One to six `#` followed by ASCII whitespace.
pub open spec fn spec_is_simple_atx_heading(trimmed: Seq<char>) -> bool {
    let n = hash_run(trimmed);
    1 <= n <= 6 && n < trimmed.len() && is_ascii_ws(trimmed[n as int])
}

/// The characters of `s` that are not ASCII whitespace.
pub open spec fn without_ascii_ws(s: Seq<char>) -> Seq<char> {
    s.filter(|c: char| !is_ascii_ws(c))
}

/// A thematic break: at least three copies of one of `-`, `*`, `_`, with
/// any ASCII whitespace between them.
pub open spec fn spec_is_simple_separator(trimmed: Seq<char>) -> bool {
    let w = without_ascii_ws(trimmed);
    &&& w.len() >= 3
    &&& forall|i: int| 0 <= i < w.len() ==> #[trigger] w[i] == w[0]
    &&& (w[0] == '-' || w[0] == '*' || w[0] == '_')
}

/// `[label]: destination`.
pub open spec fn spec_is_simple_reference_definition(trimmed: Seq<char>) -> bool {
    seq_starts_with(trimmed, "["@) && seq_contains(trimmed, "]:"@)
}

/// A physical line that stays paragraph content when pasted. Indented
/// code (a leading tab or four spaces) is structural and does not.
pub open spec fn spec_is_plain_inline_paste_line(line: Seq<char>) -> bool {
    let trimmed = trim_start(line);
    if trimmed.len() == 0 {
        true
    } else if trimmed[0] == '<' {
        spec_is_closed_inline_html_line(trimmed)
    } else {
        !(seq_starts_with(trimmed, "```"@) || seq_starts_with(trimmed, "~~~"@) || trimmed[0]
            == '>' || trimmed[0] == '|' || seq_starts_with(trimmed, "$$"@) || line[0] == '\t'
            || seq_starts_with(line, "    "@) || spec_is_simple_list_marker(trimmed)
            || spec_is_simple_atx_heading(trimmed) || spec_is_simple_separator(trimmed)
            || spec_is_simple_reference_definition(trimmed))
    }
}

/// Number of non-blank lines.
pub open spec fn non_blank_count(lines: Seq<Seq<char>>) -> nat
    decreases lines.len(),
{
    if lines.len() == 0 {
        0
    } else {
        non_blank_count(lines.drop_last()) + if is_blank(lines.last()) {
            0nat
        } else {
            1nat
        }
    }
}

/// A paste is split into one block per line when it has at least two
/// non-blank lines and every non-blank line is plain inline content.
pub open spec fn spec_should_split_plain_multiline_paste(lines: Seq<Seq<char>>) -> bool {
    &&& non_blank_count(lines) >= 2
    &&& forall|i: int|
        0 <= i < lines.len() && !is_blank(#[trigger] lines[i]) ==> spec_is_plain_inline_paste_line(
            lines[i],
        )
}

// ---------------------------------------------------------------------------
// Implementation
// ---------------------------------------------------------------------------
fn eq_lit(name: &[char], lit: &str) -> (r: bool)
    ensures
        r == (name@ == lit@),
{
    let l = chars_of(lit);
    chars_eq(name, &l)
}

/// Is `name` (lower case) an inline HTML element?
pub fn is_inline_tag(name: &[char]) -> (r: bool)
    ensures
        r == spec_is_inline_tag(name@),
{
    eq_lit(name, "a") || eq_lit(name, "abbr") || eq_lit(name, "b") || eq_lit(name, "bdi")
        || eq_lit(name, "bdo") || eq_lit(name, "big") || eq_lit(name, "br") || eq_lit(
        name,
        "cite",
    ) || eq_lit(name, "code") || eq_lit(name, "data") || eq_lit(name, "del") || eq_lit(
        name,
        "dfn",
    ) || eq_lit(name, "em") || eq_lit(name, "font") || eq_lit(name, "i") || eq_lit(name, "img")
        || eq_lit(name, "ins") || eq_lit(name, "kbd") || eq_lit(name, "mark") || eq_lit(name, "q")
        || eq_lit(name, "s") || eq_lit(name, "samp") || eq_lit(name, "small") || eq_lit(
        name,
        "span",
    ) || eq_lit(name, "strike") || eq_lit(name, "strong") || eq_lit(name, "sub") || eq_lit(
        name,
        "sup",
    ) || eq_lit(name, "time") || eq_lit(name, "tt") || eq_lit(name, "u") || eq_lit(name, "var")
        || eq_lit(name, "wbr")
}

fn count_tag_name_chars(s: &[char], from: usize) -> (n: usize)
    requires
        from <= s.len(),
    ensures
        n == tag_name_len(s@.skip(from as int)),
        from + n <= s.len(),
{
    let mut i = from;
    while i < s.len() && (is_alnum(s[i]) || s[i] == '-')
        invariant
            from <= i <= s.len(),
            tag_name_len(s@.skip(from as int)) == (i - from) + tag_name_len(s@.skip(i as int)),
        decreases s.len() - i,
    {
        assert(s@.skip(i as int).drop_first() == s@.skip(i + 1));
        i += 1;
    }
    i - from
}

/// The lower-cased name of the tag that opens `trimmed`.
pub fn leading_html_tag_name(trimmed: &[char]) -> (r: Option<Vec<char>>)
    ensures
        match (r, spec_leading_html_tag_name(trimmed@)) {
            (Some(v), Some(s)) => v@ == s,
            (None, None) => true,
            _ => false,
        },
{
    if trimmed.len() == 0 || trimmed[0] != '<' {
        return None;
    }
    let ghost tagged = trimmed@.drop_first();
    assert(tagged == trimmed@.skip(1));
    if trimmed.len() > 1 && (trimmed[1] == '/' || trimmed[1] == '!' || trimmed[1] == '?') {
        return None;
    }
    let n = count_tag_name_chars(trimmed, 1);
    if n == 0 || n >= trimmed.len() - 1 {
        return None;
    }
    let next = trimmed[1 + n];
    if next == '>' || next == ' ' || next == '\t' || next == '/' {
        let name = slice_chars(trimmed, 1, 1 + n);
        assert(name@ == tagged.take(n as int));
        Some(lowercase(&name))
    } else {
        None
    }
}

/// Does `trimmed` open with a closed, safe inline HTML element?
pub fn is_closed_inline_html_line(trimmed: &[char]) -> (r: bool)
    ensures
        r == spec_is_closed_inline_html_line(trimmed@),
{
    let name = match leading_html_tag_name(trimmed) {
        None => return false,
        Some(name) => name,
    };
    let lower = lowercase(trimmed);
    let mut close: Vec<char> = Vec::new();
    close.push('<');
    close.push('/');
    extend_chars(&mut close, &name);
    close.push('>');
    assert(close@ == closing_tag(name@));
    let script = chars_of("<script");
    let style = chars_of("<style");
    is_inline_tag(&name) && !contains(&lower, &script) && !contains(&lower, &style) && contains(
        &lower,
        &close,
    )
}

/// Is `trimmed` a bullet or ordered list marker line?
pub fn is_simple_list_marker(trimmed: &[char]) -> (r: bool)
    ensures
        r == spec_is_simple_list_marker(trimmed@),
{
    if trimmed.len() >= 2 && (trimmed[0] == '-' || trimmed[0] == '*' || trimmed[0] == '+')
        && is_ascii_whitespace(trimmed[1]) {
        return true;
    }
    let mut k: usize = 0;
    while k < trimmed.len() && trimmed[k] != '.' && trimmed[k] != ')'
        invariant
            k <= trimmed.len(),
            forall|j: int| 0 <= j < k ==> trimmed@[j] != '.' && trimmed@[j] != ')',
        decreases trimmed.len() - k,
    {
        k += 1;
    }
    if k == trimmed.len() {
        assert(first_list_delimiter(trimmed@) is None);
        return false;
    }
    let ghost fd = first_list_delimiter(trimmed@);
    assert(fd is Some);
    proof {
        let c = fd->0;
        if c < k {
        }
        if c > k {
        }
        assert(c == k);
    }
    if k == 0 || k > 9 {
        return false;
    }
    let mut j: usize = 0;
    while j < k
        invariant
            j <= k < trimmed.len(),
            forall|i: int| 0 <= i < j ==> is_ascii_digit(#[trigger] trimmed@[i]),
            fd == Some(k as int),
            fd == first_list_delimiter(trimmed@),
            !(trimmed@.len() >= 2 && (trimmed@[0] == '-' || trimmed@[0] == '*' || trimmed@[0]
                == '+') && is_ascii_ws(trimmed@[1])),
        decreases k - j,
    {
        if !is_digit(trimmed[j]) {
            assert(!is_ascii_digit(trimmed@[j as int]));
            return false;
        }
        j += 1;
    }
    k + 1 < trimmed.len() && is_ascii_whitespace(trimmed[k + 1])
}

/// Is `trimmed` an ATX heading opener (`#` .. `######` then a blank)?
pub fn is_simple_atx_heading(trimmed: &[char]) -> (r: bool)
    ensures
        r == spec_is_simple_atx_heading(trimmed@),
{
    let mut n: usize = 0;
    assert(trimmed@.skip(0) == trimmed@);
    while n < trimmed.len() && trimmed[n] == '#'
        invariant
            n <= trimmed.len(),
            hash_run(trimmed@) == n + hash_run(trimmed@.skip(n as int)),
        decreases trimmed.len() - n,
    {
        assert(trimmed@.skip(n as int).drop_first() == trimmed@.skip(n + 1));
        n += 1;
    }
    1 <= n && n <= 6 && n < trimmed.len() && is_ascii_whitespace(trimmed[n])
}

/// Is `trimmed` a thematic break made of `-`, `*` or `_`?
pub fn is_simple_separator(trimmed: &[char]) -> (r: bool)
    ensures
        r == spec_is_simple_separator(trimmed@),
{
    let mut w: Vec<char> = Vec::new();
    let mut i: usize = 0;
    while i < trimmed.len()
        invariant
            i <= trimmed.len(),
            w@ == without_ascii_ws(trimmed@.take(i as int)),
        decreases trimmed.len() - i,
    {
        proof {
            assert(trimmed@.take(i + 1).drop_last() == trimmed@.take(i as int));
            reveal_with_fuel(Seq::<_>::filter, 1);
        }
        if !is_ascii_whitespace(trimmed[i]) {
            w.push(trimmed[i]);
        }
        i += 1;
    }
    assert(trimmed@.take(trimmed.len() as int) == trimmed@);
    if w.len() < 3 {
        return false;
    }
    let first = w[0];
    let mut j: usize = 0;
    while j < w.len()
        invariant
            j <= w.len(),
            3 <= w.len(),
            w@ == without_ascii_ws(trimmed@),
            first == w@[0],
            forall|t: int| 0 <= t < j ==> #[trigger] w@[t] == first,
        decreases w.len() - j,
    {
        if w[j] != first {
            assert(w@[j as int] != w@[0]);
            return false;
        }
        j += 1;
    }
    first == '-' || first == '*' || first == '_'
}

/// Is `trimmed` a link reference definition (`[label]: ...`)?
pub fn is_simple_reference_definition(trimmed: &[char]) -> (r: bool)
    ensures
        r == spec_is_simple_reference_definition(trimmed@),
{
    let open = chars_of("[");
    let marker = chars_of("]:");
    starts_with(trimmed, &open) && contains(trimmed, &marker)
}

/// Does `line` stay paragraph content when pasted?
pub fn is_plain_inline_paste_line(line: &[char]) -> (r: bool)
    ensures
        r == spec_is_plain_inline_paste_line(line@),
{
    let trimmed = trim_start_chars(line);
    if trimmed.len() == 0 {
        return true;
    }
    if trimmed[0] == '<' {
        return is_closed_inline_html_line(&trimmed);
    }
    let fence_backtick = chars_of("```");
    let fence_tilde = chars_of("~~~");
    let math = chars_of("$$");
    let indent = chars_of("    ");
    !(starts_with(&trimmed, &fence_backtick) || starts_with(&trimmed, &fence_tilde) || trimmed[0]
        == '>' || trimmed[0] == '|' || starts_with(&trimmed, &math) || line[0] == '\t'
        || starts_with(line, &indent) || is_simple_list_marker(&trimmed) || is_simple_atx_heading(
        &trimmed,
    ) || is_simple_separator(&trimmed) || is_simple_reference_definition(&trimmed))
}

/// The character view of each line.
pub open spec fn lines_view(lines: Seq<String>) -> Seq<Seq<char>> {
    lines.map_values(|l: String| l@)
}

/// Should a multi-line paste become one paragraph block per line?
pub fn should_split_plain_multiline_paste(lines: &[String]) -> (r: bool)
    ensures
        r == spec_should_split_plain_multiline_paste(lines_view(lines@)),
{
    let ghost ls = lines_view(lines@);
    let mut count: usize = 0;
    let mut all_plain = true;
    let mut i: usize = 0;
    while i < lines.len()
        invariant
            i <= lines.len(),
            ls == lines_view(lines@),
            count == non_blank_count(ls.take(i as int)),
            count <= i,
            all_plain == forall|j: int|
                0 <= j < i && !is_blank(#[trigger] ls[j]) ==> spec_is_plain_inline_paste_line(
                    ls[j],
                ),
        decreases lines.len() - i,
    {
        let line = chars_of(lines[i].as_str());
        assert(line@ == ls[i as int]);
        assert(ls.take(i + 1).drop_last() == ls.take(i as int));
        if !is_blank_chars(&line) {
            count += 1;
            if !is_plain_inline_paste_line(&line) {
                all_plain = false;
            }
        }
        i += 1;
    }
    assert(ls.take(lines.len() as int) == ls);
    count >= 2 && all_plain
}

/// The non-blank lines, in order.
pub open spec fn non_blank_lines(ls: Seq<Seq<char>>) -> Seq<Seq<char>> {
    ls.filter(|l: Seq<char>| !is_blank(l))
}

/// The text of each paragraph that a split paste creates: one per
/// non-blank line, or a single empty paragraph when every line is blank.
pub open spec fn spec_plain_paste_paragraphs(ls: Seq<Seq<char>>) -> Seq<Seq<char>> {
    if non_blank_lines(ls).len() == 0 && ls.len() > 0 {
        seq![Seq::<char>::empty()]
    } else {
        non_blank_lines(ls)
    }
}

/// The paragraphs a split paste creates from `lines`.
pub fn plain_paste_paragraphs(lines: &[String]) -> (r: Vec<String>)
    ensures
        lines_view(r@) == spec_plain_paste_paragraphs(lines_view(lines@)),
{
    let ghost ls = lines_view(lines@);
    let mut out: Vec<String> = Vec::new();
    let mut i: usize = 0;
    while i < lines.len()
        invariant
            i <= lines.len(),
            ls == lines_view(lines@),
            lines_view(out@) == non_blank_lines(ls.take(i as int)),
        decreases lines.len() - i,
    {
        proof {
            reveal_with_fuel(Seq::<_>::filter, 1);
            assert(ls.take(i + 1).drop_last() =~= ls.take(i as int));
            assert(ls.take(i + 1).last() == ls[i as int]);
        }
        let ghost before = lines_view(out@);
        let line = chars_of(lines[i].as_str());
        assert(line@ == ls[i as int]);
        if !is_blank_chars(&line) {
            out.push(crate::text::string_of(&line));
            assert(lines_view(out@) =~= before.push(ls[i as int]));
        }
        i += 1;
    }
    assert(ls.take(lines.len() as int) =~= ls);
    if out.len() == 0 && lines.len() > 0 {
        let mut one: Vec<String> = Vec::new();
        one.push(String::new());
        assert(lines_view(one@) =~= seq![Seq::<char>::empty()]);
        one
    } else {
        out
    }
}

proof fn lemma_non_blank_count(ls: Seq<Seq<char>>)
    ensures
        non_blank_count(ls) == non_blank_lines(ls).len(),
    decreases ls.len(),
{
    reveal_with_fuel(Seq::<_>::filter, 1);
    if ls.len() > 0 {
        lemma_non_blank_count(ls.drop_last());
    }
}

proof fn lemma_split_by_non_blank_lines(ls: Seq<Seq<char>>)
    ensures
        spec_should_split_plain_multiline_paste(ls) == (non_blank_lines(ls).len() >= 2 && forall|
            j: int,
        | 0 <= j < non_blank_lines(ls).len() ==> spec_is_plain_inline_paste_line(
            #[trigger] non_blank_lines(ls)[j],
        )),
{
    lemma_non_blank_count(ls);
    let nb = non_blank_lines(ls);
    let p = |l: Seq<char>| !is_blank(l);
    let all_ls = forall|i: int|
        0 <= i < ls.len() && !is_blank(#[trigger] ls[i]) ==> spec_is_plain_inline_paste_line(ls[i]);
    let all_nb = forall|j: int| 0 <= j < nb.len() ==> spec_is_plain_inline_paste_line(#[trigger] nb[j]);
    if all_ls {
        assert forall|j: int| 0 <= j < nb.len() implies spec_is_plain_inline_paste_line(
            #[trigger] nb[j],
        ) by {
            assert(nb.contains(nb[j]));
            ls.lemma_filter_contains_rev(p, nb[j]);
            let w = choose|w: int| 0 <= w < ls.len() && ls[w] == nb[j];
            ls.lemma_filter_pred(p, j);
            assert(!is_blank(ls[w]));
        }
    }
    if all_nb {
        assert forall|i: int| 0 <= i < ls.len() && !is_blank(#[trigger] ls[i]) implies spec_is_plain_inline_paste_line(
            ls[i],
        ) by {
            ls.lemma_filter_contains(p, i);
            let w = choose|w: int| 0 <= w < nb.len() && nb[w] == ls[i];
            assert(spec_is_plain_inline_paste_line(nb[w]));
        }
    }
}

/// Whether a paste is split depends only on its non-blank lines: adding or
/// removing blank lines anywhere never changes it, and a paste with at most
/// one non-blank line is never split.
pub proof fn law_split_ignores_blank_lines(a: Seq<Seq<char>>, b: Seq<Seq<char>>)
    requires
        non_blank_lines(a) == non_blank_lines(b),
    ensures
        spec_should_split_plain_multiline_paste(a) == spec_should_split_plain_multiline_paste(b),
        non_blank_lines(a).len() <= 1 ==> !spec_should_split_plain_multiline_paste(a),
{
    lemma_split_by_non_blank_lines(a);
    lemma_split_by_non_blank_lines(b);
}

proof fn lemma_filter_skips_leading(s: Seq<char>, n: int)
    requires
        0 <= n <= s.len(),
        forall|i: int| 0 <= i < n ==> is_ascii_ws(#[trigger] s[i]),
    ensures
        s.skip(n).filter(|x: char| !is_ascii_ws(x)) == s.filter(|x: char| !is_ascii_ws(x)),
{
    let p = |x: char| !is_ascii_ws(x);
    let a = s.take(n);
    let b = s.skip(n);
    assert(a + b =~= s);
    Seq::filter_distributes_over_add(a, b, p);
    if a.filter(p).len() > 0 {
        let x = a.filter(p)[0];
        a.lemma_filter_pred(p, 0);
        assert(a.filter(p).contains(x));
        a.lemma_filter_contains_rev(p, x);
        let w = choose|w: int| 0 <= w < a.len() && a[w] == x;
        assert(is_ascii_ws(s[w]));
    }
    assert(a.filter(p) =~= Seq::<char>::empty());
    assert(Seq::<char>::empty() + b.filter(p) =~= b.filter(p));
}

/// A thematic break (three or more of one of `-`, `*`, `_`, with only ASCII
/// whitespace besides) is structural Markdown, never plain paste content,
/// so a paste holding one is never split into paragraphs.
pub proof fn law_thematic_break_is_not_plain(line: Seq<char>, marker: char)
    requires
        marker == '-' || marker == '*' || marker == '_',
        forall|i: int| 0 <= i < line.len() ==> #[trigger] line[i] == marker || is_ascii_ws(line[i]),
        line.filter(|x: char| !is_ascii_ws(x)).len() >= 3,
    ensures
        !spec_is_plain_inline_paste_line(line),
        forall|ls: Seq<Seq<char>>|
            #[trigger] ls.contains(line) ==> !spec_should_split_plain_multiline_paste(ls),
{
    let p = |x: char| !is_ascii_ws(x);
    crate::text::lemma_leading_ws(line);
    let n = crate::text::leading_ws(line) as int;
    assert forall|i: int| 0 <= i < n implies is_ascii_ws(#[trigger] line[i]) by {
        assert(crate::text::is_ws(line[i]));
    }
    lemma_filter_skips_leading(line, n);
    let t = trim_start(line);
    let w = without_ascii_ws(t);
    assert(w == line.filter(p));
    assert forall|i: int| 0 <= i < w.len() implies #[trigger] w[i] == marker by {
        line.lemma_filter_pred(p, i);
        assert(line.filter(p).contains(w[i]));
        line.lemma_filter_contains_rev(p, w[i]);
    }
    assert(w[0] == marker);
    assert(spec_is_simple_separator(t));
    assert(t.len() > 0) by {
        if t.len() == 0 {
            assert(line.skip(n).filter(p) =~= Seq::<char>::empty()) by {
                assert(line.skip(n) =~= Seq::<char>::empty());
            }
        }
    }
    assert(t[0] == line[n]);
    assert(!crate::text::is_ws(line[n]));
    assert(t[0] == marker);
    assert forall|ls: Seq<Seq<char>>| #[trigger] ls.contains(line) implies !spec_should_split_plain_multiline_paste(ls) by {
        let j = choose|j: int| 0 <= j < ls.len() && ls[j] == line;
        assert(!is_blank(ls[j])) by {
            assert(!crate::text::is_ws(line[n]));
        }
    }
}

/// Lines that open Markdown structure are never plain paste content: code
/// fences, block quotes, table rows, display math, indented code (unless it
/// is an inline HTML line), ATX headings, and bullet or numbered list
/// items.
pub proof fn law_structural_lines_are_not_plain(line: Seq<char>)
    ensures
        ({
            let t = trim_start(line);
            &&& (t.len() >= 3 && t[0] == '`' && t[1] == '`' && t[2] == '`')
                ==> !spec_is_plain_inline_paste_line(line)
            &&& (t.len() >= 3 && t[0] == '~' && t[1] == '~' && t[2] == '~')
                ==> !spec_is_plain_inline_paste_line(line)
            &&& (t.len() >= 1 && (t[0] == '>' || t[0] == '|')) ==> !spec_is_plain_inline_paste_line(line)
            &&& (t.len() >= 2 && t[0] == '$' && t[1] == '$') ==> !spec_is_plain_inline_paste_line(line)
            &&& (t.len() >= 1 && t[0] != '<' && line[0] == '\t') ==> !spec_is_plain_inline_paste_line(
                line,
            )
            &&& (t.len() >= 1 && t[0] != '<' && line.len() >= 4 && line[0] == ' ' && line[1] == ' '
                && line[2] == ' ' && line[3] == ' ') ==> !spec_is_plain_inline_paste_line(line)
            &&& (t.len() >= 2 && t[0] == '#' && t[1] == ' ') ==> !spec_is_plain_inline_paste_line(line)
            &&& (t.len() >= 2 && (t[0] == '-' || t[0] == '*' || t[0] == '+') && t[1] == ' ')
                ==> !spec_is_plain_inline_paste_line(line)
            &&& (t.len() >= 3 && is_ascii_digit(t[0]) && (t[1] == '.' || t[1] == ')') && t[2] == ' ')
                ==> !spec_is_plain_inline_paste_line(line)
        }),
{
    reveal_strlit("```");
    reveal_strlit("~~~");
    reveal_strlit("$$");
    reveal_strlit("    ");
    let t = trim_start(line);
    if t.len() >= 3 && t[0] == '`' && t[1] == '`' && t[2] == '`' {
        assert(t.take(3) =~= "```"@);
    }
    if t.len() >= 3 && t[0] == '~' && t[1] == '~' && t[2] == '~' {
        assert(t.take(3) =~= "~~~"@);
    }
    if t.len() >= 2 && t[0] == '$' && t[1] == '$' {
        assert(t.take(2) =~= "$$"@);
    }
    if line.len() >= 4 && line[0] == ' ' && line[1] == ' ' && line[2] == ' ' && line[3] == ' ' {
        assert(line.take(4) =~= "    "@);
    }
    if t.len() >= 2 && t[0] == '#' && t[1] == ' ' {
        assert(hash_run(t.drop_first()) == 0);
        assert(hash_run(t) == 1);
    }
    if t.len() >= 3 && is_ascii_digit(t[0]) && (t[1] == '.' || t[1] == ')') && t[2] == ' ' {
        assert(first_list_delimiter(t) == Some(1int)) by {
            assert(exists|i: int| 0 <= i < t.len() && (t[i] == '.' || t[i] == ')'));
            let k = choose|i: int|
                0 <= i < t.len() && (t[i] == '.' || t[i] == ')') && forall|j: int|
                    0 <= j < i ==> t[j] != '.' && t[j] != ')';
            assert(0 <= k < t.len() && (t[k] == '.' || t[k] == ')') && forall|j: int|
                0 <= j < k ==> t[j] != '.' && t[j] != ')') by {
                assert(forall|j: int| 0 <= j < 1 ==> t[j] != '.' && t[j] != ')');
            }
            assert(k == 1);
        }
    }
}

/// An ASCII letter.
pub open spec fn is_ascii_letter(c: char) -> bool {
    ('a' <= c && c <= 'z') || ('A' <= c && c <= 'Z')
}

/// A line of words (ASCII letters and spaces, starting with a letter) is
/// plain paste content.
pub proof fn law_words_are_plain(line: Seq<char>)
    requires
        line.len() > 0,
        is_ascii_letter(line[0]),
        forall|i: int| 0 <= i < line.len() ==> is_ascii_letter(#[trigger] line[i]) || line[i] == ' ',
    ensures
        spec_is_plain_inline_paste_line(line),
{
    reveal_strlit("```");
    reveal_strlit("~~~");
    reveal_strlit("$$");
    reveal_strlit("    ");
    reveal_strlit("[");
    let t = trim_start(line);
    assert(crate::text::leading_ws(line) == 0);
    assert(t =~= line);
    assert(hash_run(t) == 0);
    assert(first_list_delimiter(t) is None);
    assert(!spec_is_simple_separator(t)) by {
        let w = without_ascii_ws(t);
        if w.len() >= 3 {
            let p = |x: char| !is_ascii_ws(x);
            t.lemma_filter_pred(p, 0);
            assert(w.contains(w[0]));
            t.lemma_filter_contains_rev(p, w[0]);
        }
    }
    assert(!seq_starts_with(t, "```"@)) by {
        if seq_starts_with(t, "```"@) {
            assert(t.take(3)[0] == t[0]);
        }
    }
    assert(!seq_starts_with(t, "~~~"@)) by {
        if seq_starts_with(t, "~~~"@) {
            assert(t.take(3)[0] == t[0]);
        }
    }
    assert(!seq_starts_with(t, "$$"@)) by {
        if seq_starts_with(t, "$$"@) {
            assert(t.take(2)[0] == t[0]);
        }
    }
    assert(!seq_starts_with(line, "    "@)) by {
        if seq_starts_with(line, "    "@) {
            assert(line.take(4)[0] == line[0]);
        }
    }
    assert(!seq_starts_with(t, "["@)) by {
        if seq_starts_with(t, "["@) {
            assert(t.take(1)[0] == t[0]);
        }
    }
}

} // verus!
