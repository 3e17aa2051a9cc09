//! Shared user-configuration helpers: configuration directories, imported
//! configuration files, JSONC comments and file names for imported packs.
use vstd::prelude::*;

use crate::json::{parse_json_text, serde_json_parse, JsonValue, JsonView};
use crate::paths::{eq_ignore_ascii_case, extension, join_path, spec_extension, spec_join};
use crate::text::{
    chars_of, is_blank, is_whitespace, is_ws, lower_seq, slice_chars, string_of, trim,
    trim_chars,
};

verus! {

broadcast use vstd::string::group_string_axioms;

// ---------------------------------------------------------------------------
// Configuration directories
// ---------------------------------------------------------------------------
/// The configuration directories owned by Velotype, under one root, with
/// paths joined by the conventions of one platform.
pub struct VelotypeConfigDirs {
    root: String,
    windows: bool,
}

impl VelotypeConfigDirs {
    /// The root directory.
    pub closed spec fn root_view(&self) -> Seq<char> {
        self.root@
    }

    /// Whether paths are joined by Windows conventions.
    pub closed spec fn windows_view(&self) -> bool {
        self.windows
    }

    /// Creates a directory set under `root`, with Unix paths.
    pub fn from_root(root: &str) -> (r: Self)
        ensures
            r.root_view() == root@,
            !r.windows_view(),
    {
        Self::from_root_on(root, false)
    }

    /// Creates a directory set under `root`, with Windows paths when
    /// `windows` holds and Unix paths otherwise.
    pub fn from_root_on(root: &str, windows: bool) -> (r: Self)
        ensures
            r.root_view() == root@,
            r.windows_view() == windows,
    {
        VelotypeConfigDirs { root: string_of(&chars_of(root)), windows }
    }

    fn child(&self, name: &str) -> (r: String)
        ensures
            r@ == spec_join(self.root@, name@, self.windows),
    {
        let base = chars_of(self.root.as_str());
        let child = chars_of(name);
        string_of(&join_path(&base, &child, self.windows))
    }

    /// Where imported language packs are stored.
    pub fn languages_dir(&self) -> (r: String)
        ensures
            r@ == spec_join(self.root_view(), "languages"@, self.windows_view()),
    {
        self.child("languages")
    }

    /// Where imported themes are stored.
    pub fn themes_dir(&self) -> (r: String)
        ensures
            r@ == spec_join(self.root_view(), "themes"@, self.windows_view()),
    {
        self.child("themes")
    }

    /// The recent-file history.
    pub fn history_file(&self) -> (r: String)
        ensures
            r@ == spec_join(self.root_view(), ".history"@, self.windows_view()),
    {
        self.child(".history")
    }

    /// The app preferences file.
    pub fn app_config_file(&self) -> (r: String)
        ensures
            r@ == spec_join(self.root_view(), "config.toml"@, self.windows_view()),
    {
        self.child("config.toml")
    }
}

// ---------------------------------------------------------------------------
// Configuration file names
// ---------------------------------------------------------------------------
/// Is the extension `json` or `jsonc`, in any ASCII case?
pub open spec fn spec_is_supported_config_file(path: Seq<char>) -> bool {
    match spec_extension(path, false) {
        None => false,
        Some(ext) => lower_seq(ext) == "json"@ || lower_seq(ext) == "jsonc"@,
    }
}

proof fn lemma_lower_json()
    ensures
        lower_seq("json"@) == "json"@,
        lower_seq("jsonc"@) == "jsonc"@,
{
    reveal_strlit("json");
    reveal_strlit("jsonc");
    assert(lower_seq("json"@) =~= "json"@);
    assert(lower_seq("jsonc"@) =~= "jsonc"@);
}

/// Is `path` a `.json` or `.jsonc` configuration file?
pub fn is_supported_config_file(path: &str) -> (r: bool)
    ensures
        r == spec_is_supported_config_file(path@),
{
    let p = chars_of(path);
    match extension(&p, false) {
        None => false,
        Some(ext) => {
            let json = chars_of("json");
            let jsonc = chars_of("jsonc");
            proof {
                lemma_lower_json();
            }
            eq_ignore_ascii_case(&ext, &json) || eq_ignore_ascii_case(&ext, &jsonc)
        },
    }
}

/// Is `path` a `.jsonc` file (read with comments)?
pub fn is_jsonc_file(path: &str) -> (r: bool)
    ensures
        r == (spec_extension(path@, false) matches Some(ext) && lower_seq(ext) == "jsonc"@),
{
    let p = chars_of(path);
    match extension(&p, false) {
        None => false,
        Some(ext) => {
            let jsonc = chars_of("jsonc");
            proof {
                lemma_lower_json();
            }
            eq_ignore_ascii_case(&ext, &jsonc)
        },
    }
}

// ---------------------------------------------------------------------------
// File-name stems
// ---------------------------------------------------------------------------
/// `char::is_alphanumeric`: Unicode `Alphabetic` or `Numeric`.
pub uninterp spec fn char_is_alphanumeric(c: char) -> bool;

/// Is `c` alphanumeric?
///
/// Trusted: calls `char::is_alphanumeric`. The claim is that the result is
/// a function of `c` alone, and that among ASCII characters exactly the
/// letters and digits are alphanumeric (the Unicode `Alphabetic` and
/// `Numeric` properties there). Which non-ASCII characters are
/// alphanumeric is left unsaid.
#[verifier::external_body]
fn is_alphanumeric(c: char) -> (r: bool)
    ensures
        r == char_is_alphanumeric(c),
        (c as u32) < 128 ==> (r == crate::text::is_ascii_alnum(c)),
{
    c.is_alphanumeric()
}

/// `char::is_alphanumeric` as far as it is known: ASCII letters and digits
/// among ASCII characters; the named result elsewhere.
pub open spec fn stem_alphanumeric(c: char) -> bool {
    if (c as u32) < 128 {
        crate::text::is_ascii_alnum(c)
    } else {
        char_is_alphanumeric(c)
    }
}

/// Characters kept in a file-name stem (whitespace never is: it becomes
/// `_` first).
pub open spec fn is_stem_char(c: char) -> bool {
    !is_ws(c) && (stem_alphanumeric(c) || c == '-' || c == '_' || c == '.')
}

/// The stem built from `s` so far, given whether the last kept character
/// was the `_` that stands for a run of blanks: blanks become one `_`
/// (none at the start), other characters are kept when they are stem
/// characters and dropped otherwise.
pub open spec fn stem_chars(s: Seq<char>) -> (Seq<char>, bool)
    decreases s.len(),
{
    if s.len() == 0 {
        (Seq::empty(), false)
    } else {
        let (out, last_sep) = stem_chars(s.drop_last());
        let c = s.last();
        if is_ws(c) {
            if !last_sep && out.len() > 0 {
                (out.push('_'), true)
            } else {
                (out, last_sep)
            }
        } else if is_stem_char(c) {
            (out.push(c), false)
        } else {
            (out, last_sep)
        }
    }
}

pub open spec fn is_stem_trim_char(c: char) -> bool {
    c == '_' || c == '.'
}

/// Number of leading `_` / `.` characters.
pub open spec fn leading_stem_trim(s: Seq<char>) -> nat
    decreases s.len(),
{
    if s.len() > 0 && is_stem_trim_char(s[0]) {
        1 + leading_stem_trim(s.drop_first())
    } else {
        0
    }
}

/// Number of trailing `_` / `.` characters.
pub open spec fn trailing_stem_trim(s: Seq<char>) -> nat
    decreases s.len(),
{
    if s.len() > 0 && is_stem_trim_char(s.last()) {
        1 + trailing_stem_trim(s.drop_last())
    } else {
        0
    }
}

/// `s.trim_matches(['_', '.'])`.
pub open spec fn trim_stem(s: Seq<char>) -> Seq<char> {
    let a = s.skip(leading_stem_trim(s) as int);
    a.take(a.len() - trailing_stem_trim(a))
}

/// The file-name stem for an imported pack named `value`; `custom` when
/// nothing usable is left.
pub open spec fn spec_sanitize_config_file_stem(value: Seq<char>) -> Seq<char> {
    let out = trim_stem(stem_chars(trim(value)).0);
    if out.len() == 0 {
        "custom"@
    } else {
        out
    }
}

proof fn lemma_leading_stem_trim(s: Seq<char>)
    ensures
        leading_stem_trim(s) <= s.len(),
    decreases s.len(),
{
    if s.len() > 0 && is_stem_trim_char(s[0]) {
        lemma_leading_stem_trim(s.drop_first());
    }
}

proof fn lemma_trailing_stem_trim(s: Seq<char>)
    ensures
        trailing_stem_trim(s) <= s.len(),
    decreases s.len(),
{
    if s.len() > 0 && is_stem_trim_char(s.last()) {
        lemma_trailing_stem_trim(s.drop_last());
    }
}

proof fn lemma_stem_chars_safe(s: Seq<char>)
    ensures
        forall|i: int| 0 <= i < stem_chars(s).0.len() ==> is_stem_char(#[trigger] stem_chars(s).0[i]),
    decreases s.len(),
{
    if s.len() > 0 {
        lemma_stem_chars_safe(s.drop_last());
        let prev = stem_chars(s.drop_last()).0;
        let out = stem_chars(s).0;
        assert forall|i: int| 0 <= i < out.len() implies is_stem_char(#[trigger] out[i]) by {
            if i < prev.len() {
                assert(out[i] == prev[i]);
            }
        }
    }
}

proof fn lemma_leading_stem_trim_stops(s: Seq<char>)
    ensures
        leading_stem_trim(s) <= s.len(),
        leading_stem_trim(s) < s.len() ==> !is_stem_trim_char(s[leading_stem_trim(s) as int]),
    decreases s.len(),
{
    if s.len() > 0 && is_stem_trim_char(s[0]) {
        lemma_leading_stem_trim_stops(s.drop_first());
        if leading_stem_trim(s) < s.len() {
            assert(s[leading_stem_trim(s) as int] == s.drop_first()[leading_stem_trim(
                s.drop_first(),
            ) as int]);
        }
    }
}

proof fn lemma_trailing_stem_trim_stops(s: Seq<char>)
    ensures
        trailing_stem_trim(s) <= s.len(),
        trailing_stem_trim(s) < s.len() ==> !is_stem_trim_char(
            s[s.len() - trailing_stem_trim(s) - 1],
        ),
    decreases s.len(),
{
    if s.len() > 0 && is_stem_trim_char(s.last()) {
        lemma_trailing_stem_trim_stops(s.drop_last());
        if trailing_stem_trim(s) < s.len() {
            assert(s[s.len() - trailing_stem_trim(s) - 1] == s.drop_last()[s.drop_last().len()
                - trailing_stem_trim(s.drop_last()) - 1]);
        }
    }
}

/// A sanitized stem is `custom`, or a non-empty run of letters, digits,
/// `-`, `_` and `.` that neither starts nor ends with `_` or `.`.
pub proof fn law_sanitized_stem_is_safe(value: Seq<char>)
    ensures
        spec_sanitize_config_file_stem(value) == "custom"@ || {
            let r = spec_sanitize_config_file_stem(value);
            &&& r.len() > 0
            &&& forall|i: int| 0 <= i < r.len() ==> #[trigger] is_stem_char(r[i])
            &&& !is_stem_trim_char(r[0])
            &&& !is_stem_trim_char(r[r.len() - 1])
        },
{
    let out = stem_chars(trim(value)).0;
    lemma_stem_chars_safe(trim(value));
    lemma_leading_stem_trim_stops(out);
    let a = out.skip(leading_stem_trim(out) as int);
    lemma_trailing_stem_trim_stops(a);
    let r = trim_stem(out);
    if r.len() > 0 {
        assert(r == a.take(a.len() - trailing_stem_trim(a)));
        assert(r[0] == a[0]);
        assert(a[0] == out[leading_stem_trim(out) as int]);
        assert(r[r.len() - 1] == a[a.len() - trailing_stem_trim(a) - 1]);
        assert forall|i: int| 0 <= i < r.len() implies #[trigger] is_stem_char(r[i]) by {
            assert(r[i] == out[leading_stem_trim(out) + i]);
        }
    }
}

proof fn lemma_stem_chars_keep(t: Seq<char>)
    requires
        forall|i: int| 0 <= i < t.len() ==> is_stem_char(#[trigger] t[i]),
    ensures
        stem_chars(t) == (t, false),
    decreases t.len(),
{
    if t.len() > 0 {
        let d = t.drop_last();
        assert forall|i: int| 0 <= i < d.len() implies is_stem_char(#[trigger] d[i]) by {
            assert(d[i] == t[i]);
        }
        lemma_stem_chars_keep(d);
        assert(is_stem_char(t[t.len() - 1]));
        assert(d.push(t.last()) =~= t);
    } else {
        assert(t =~= Seq::<char>::empty());
    }
}

proof fn lemma_stem_fixed(r: Seq<char>)
    requires
        r.len() > 0,
        forall|i: int| 0 <= i < r.len() ==> #[trigger] is_stem_char(r[i]),
        !is_stem_trim_char(r[0]),
        !is_stem_trim_char(r[r.len() - 1]),
    ensures
        spec_sanitize_config_file_stem(r) == r,
{
    assert(is_stem_char(r[0]));
    assert(is_stem_char(r[r.len() - 1]));
    assert(crate::text::leading_ws(r) == 0);
    assert(r.skip(0) =~= r);
    assert(crate::text::trailing_ws(r) == 0);
    assert(r.take(r.len() as int) =~= r);
    assert(trim(r) == r);
    lemma_stem_chars_keep(r);
    assert(leading_stem_trim(r) == 0);
    assert(trailing_stem_trim(r) == 0);
    assert(trim_stem(r) == r);
}

/// Sanitizing a sanitized stem changes nothing.
pub proof fn law_sanitized_stem_is_idempotent(value: Seq<char>)
    ensures
        spec_sanitize_config_file_stem(spec_sanitize_config_file_stem(value))
            == spec_sanitize_config_file_stem(value),
{
    law_sanitized_stem_is_safe(value);
    let r = spec_sanitize_config_file_stem(value);
    if r == "custom"@ {
        reveal_strlit("custom");
        assert forall|i: int| 0 <= i < r.len() implies #[trigger] is_stem_char(r[i]) by {
            assert(crate::text::is_ascii_lower(r[i]));
        }
        lemma_stem_fixed(r);
    } else {
        lemma_stem_fixed(r);
    }
}

/// Turns a pack name into a safe file-name stem.
pub fn sanitize_config_file_stem(value: &str) -> (r: String)
    ensures
        r@ == spec_sanitize_config_file_stem(value@),
{
    let v = chars_of(value);
    let t = trim_chars(&v);
    let mut out: Vec<char> = Vec::new();
    let mut last_sep = false;
    let mut i: usize = 0;
    assert(t@.take(0) == Seq::<char>::empty());
    while i < t.len()
        invariant
            i <= t.len(),
            (out@, last_sep) == stem_chars(t@.take(i as int)),
        decreases t.len() - i,
    {
        assert(t@.take(i + 1).drop_last() == t@.take(i as int));
        assert(t@.take(i + 1).last() == t@[i as int]);
        let c = t[i];
        if is_whitespace(c) {
            if !last_sep && out.len() > 0 {
                out.push('_');
                last_sep = true;
            }
        } else if is_alphanumeric(c) || c == '-' || c == '_' || c == '.' {
            out.push(c);
            last_sep = false;
        }
        i += 1;
    }
    assert(t@.take(t.len() as int) == t@);
    let mut start: usize = 0;
    assert(out@.skip(0) == out@);
    while start < out.len() && (out[start] == '_' || out[start] == '.')
        invariant
            start <= out.len(),
            leading_stem_trim(out@) == start + leading_stem_trim(out@.skip(start as int)),
        decreases out.len() - start,
    {
        assert(out@.skip(start as int).drop_first() == out@.skip(start + 1));
        start += 1;
    }
    let a = slice_chars(&out, start, out.len());
    assert(a@ == out@.skip(start as int));
    let mut end: usize = a.len();
    assert(a@.take(a.len() as int) == a@);
    while end > 0 && (a[end - 1] == '_' || a[end - 1] == '.')
        invariant
            end <= a.len(),
            trailing_stem_trim(a@) == (a.len() - end) + trailing_stem_trim(a@.take(end as int)),
        decreases end,
    {
        assert(a@.take(end as int).drop_last() == a@.take(end - 1));
        end -= 1;
    }
    proof {
        lemma_trailing_stem_trim(a@.take(end as int));
    }
    let trimmed = slice_chars(&a, 0, end);
    if trimmed.len() == 0 {
        string_of(&chars_of("custom"))
    } else {
        string_of(&trimmed)
    }
}

// ---------------------------------------------------------------------------
// JSONC comments
// ---------------------------------------------------------------------------
/// Why JSONC text could not be read.
#[derive(PartialEq, Eq, Structural, Debug)]
pub enum JsoncError {
    /// A `/*` comment is never closed.
    UnterminatedBlockComment,
}

/// The line breaks in `s`, in order.
pub open spec fn newlines_in(s: Seq<char>) -> Seq<char> {
    s.filter(|c: char| c == '\n')
}

/// Position of the `/` that closes a block comment opened at `start` (the
/// `/` of `/*`): the first `k >= start + 3` with `*` then `/` at `k - 1`,
/// `k`.
pub open spec fn block_comment_close(s: Seq<char>, start: int) -> Option<int> {
    if exists|k: int| start + 3 <= k < s.len() && #[trigger] closes_at(s, k) {
        Some(
            choose|k: int|
                start + 3 <= k < s.len() && closes_at(s, k) && forall|j: int|
                    start + 3 <= j < k ==> !#[trigger] closes_at(s, j),
        )
    } else {
        None
    }
}

/// `*/` ends at position `k`.
pub open spec fn closes_at(s: Seq<char>, k: int) -> bool {
    1 <= k < s.len() && s[k - 1] == '*' && s[k] == '/'
}

/// Position of the first line break at or after `from`.
pub open spec fn next_newline(s: Seq<char>, from: int) -> Option<int> {
    if exists|k: int| from <= k < s.len() && s[k] == '\n' {
        Some(
            choose|k: int|
                from <= k < s.len() && s[k] == '\n' && forall|j: int|
                    from <= j < k ==> s[j] != '\n',
        )
    } else {
        None
    }
}

/// Comment-scan state after reading `c`: whether the scan is inside a
/// string, and whether the next character is escaped.
pub open spec fn step_state(c: char, in_string: bool, escaped: bool) -> (bool, bool) {
    if in_string {
        if escaped {
            (true, false)
        } else if c == '\\' {
            (true, true)
        } else if c == '"' {
            (false, false)
        } else {
            (true, false)
        }
    } else if c == '"' {
        (true, false)
    } else {
        (false, false)
    }
}

/// A `//` comment starts at `i`, outside a string.
pub open spec fn line_comment_at(s: Seq<char>, i: int, in_string: bool) -> bool {
    !in_string && 0 <= i && i + 1 < s.len() && s[i] == '/' && s[i + 1] == '/'
}

/// A `/*` comment starts at `i`, outside a string.
pub open spec fn block_comment_at(s: Seq<char>, i: int, in_string: bool) -> bool {
    !in_string && 0 <= i && i + 1 < s.len() && s[i] == '/' && s[i + 1] == '*'
}

/// `p` put in front of a successful result.
pub open spec fn prepend(p: Seq<char>, r: Result<Seq<char>, JsoncError>) -> Result<Seq<char>, JsoncError> {
    match r {
        Ok(rest) => Ok(p + rest),
        Err(e) => Err(e),
    }
}

/// The JSONC text `s` from position `i` on, with comments removed, when the
/// scan starts inside a string or not, and right after a backslash in a
/// string or not. A `//` comment is replaced by the line break that ends it
/// (by nothing at the end of the text); a `/* */` comment by the line
/// breaks it holds. Comment markers inside strings are kept.
pub open spec fn strip_from(s: Seq<char>, i: int, in_string: bool, escaped: bool) -> Result<Seq<char>, JsoncError>
    decreases s.len() - i,
{
    if i >= s.len() || i < 0 {
        Ok(Seq::empty())
    } else if line_comment_at(s, i, in_string) {
        match next_newline(s, i + 2) {
            None => Ok(Seq::empty()),
            Some(k) => if i < k < s.len() {
                prepend(seq!['\n'], strip_from(s, k + 1, false, false))
            } else {
                Ok(Seq::empty())
            },
        }
    } else if block_comment_at(s, i, in_string) {
        match block_comment_close(s, i) {
            None => Err(JsoncError::UnterminatedBlockComment),
            Some(k) => if i < k < s.len() {
                prepend(newlines_in(s.subrange(i + 2, k)), strip_from(s, k + 1, false, false))
            } else {
                Ok(Seq::empty())
            },
        }
    } else {
        let (a, b) = step_state(s[i], in_string, escaped);
        prepend(seq![s[i]], strip_from(s, i + 1, a, b))
    }
}

/// The JSONC text with its comments removed.
pub open spec fn spec_strip_jsonc_comments(s: Seq<char>) -> Result<Seq<char>, JsoncError> {
    strip_from(s, 0, false, false)
}

/// The state of the comment scan: the output so far joined to what the rest
/// of the text gives is the whole result.
pub open spec fn scan_inv(s: Seq<char>, out: Seq<char>, i: int, in_string: bool, escaped: bool) -> bool {
    match (strip_from(s, i, in_string, escaped), spec_strip_jsonc_comments(s)) {
        (Ok(rest), Ok(all)) => out + rest == all,
        (Err(e), Err(f)) => e == f,
        _ => false,
    }
}

proof fn lemma_prepend_inv(s: Seq<char>, out: Seq<char>, p: Seq<char>, i: int, r: Result<Seq<char>, JsoncError>, in_string: bool, escaped: bool)
    requires
        (match (prepend(p, r), spec_strip_jsonc_comments(s)) {
            (Ok(rest), Ok(all)) => out + rest == all,
            (Err(e), Err(f)) => e == f,
            _ => false,
        }),
        r == strip_from(s, i, in_string, escaped),
    ensures
        scan_inv(s, out + p, i, in_string, escaped),
{
    match r {
        Ok(rest) => {
            assert(out + p + rest =~= out + (p + rest));
        },
        Err(_) => {},
    }
}

proof fn lemma_step_char(s: Seq<char>, out: Seq<char>, i: int, in_string: bool, escaped: bool)
    requires
        0 <= i < s.len(),
        scan_inv(s, out, i, in_string, escaped),
        !line_comment_at(s, i, in_string),
        !block_comment_at(s, i, in_string),
    ensures
        scan_inv(
            s,
            out.push(s[i]),
            i + 1,
            step_state(s[i], in_string, escaped).0,
            step_state(s[i], in_string, escaped).1,
        ),
{
    let (a, b) = step_state(s[i], in_string, escaped);
    assert(out.push(s[i]) =~= out + seq![s[i]]);
    lemma_prepend_inv(s, out, seq![s[i]], i + 1, strip_from(s, i + 1, a, b), a, b);
}

proof fn lemma_step_line(s: Seq<char>, out: Seq<char>, i: int, k: int, escaped: bool)
    requires
        scan_inv(s, out, i, false, escaped),
        line_comment_at(s, i, false),
        next_newline(s, i + 2) == Some(k),
        i < k < s.len(),
    ensures
        scan_inv(s, out.push('\n'), k + 1, false, false),
{
    assert(out.push('\n') =~= out + seq!['\n']);
    lemma_prepend_inv(s, out, seq!['\n'], k + 1, strip_from(s, k + 1, false, false), false, false);
}

proof fn lemma_step_line_end(s: Seq<char>, out: Seq<char>, i: int, escaped: bool)
    requires
        scan_inv(s, out, i, false, escaped),
        line_comment_at(s, i, false),
        next_newline(s, i + 2) is None,
    ensures
        spec_strip_jsonc_comments(s) == Ok::<Seq<char>, JsoncError>(out),
{
    assert(out + Seq::<char>::empty() =~= out);
}

#[verifier::spinoff_prover]
#[verifier::rlimit(40)]
proof fn lemma_step_block(s: Seq<char>, out: Seq<char>, i: int, k: int, escaped: bool)
    requires
        scan_inv(s, out, i, false, escaped),
        block_comment_at(s, i, false),
        block_comment_close(s, i) == Some(k),
        i < k < s.len(),
    ensures
        scan_inv(s, out + newlines_in(s.subrange(i + 2, k)), k + 1, false, false),
{
    lemma_prepend_inv(
        s,
        out,
        newlines_in(s.subrange(i + 2, k)),
        k + 1,
        strip_from(s, k + 1, false, false),
        false,
        false,
    );
}

proof fn lemma_step_block_open(s: Seq<char>, out: Seq<char>, i: int, escaped: bool)
    requires
        scan_inv(s, out, i, false, escaped),
        block_comment_at(s, i, false),
        block_comment_close(s, i) is None,
    ensures
        spec_strip_jsonc_comments(s) == Err::<Seq<char>, JsoncError>(
            JsoncError::UnterminatedBlockComment,
        ),
{
}

fn find_newline(s: &[char], from: usize) -> (r: Option<usize>)
    requires
        from <= s.len(),
    ensures
        match (r, next_newline(s@, from as int)) {
            (Some(k), Some(n)) => k == n && from <= k < s.len(),
            (None, None) => true,
            _ => false,
        },
{
    let mut k = from;
    while k < s.len() && s[k] != '\n'
        invariant
            from <= k <= s.len(),
            forall|j: int| from <= j < k ==> s@[j] != '\n',
        decreases s.len() - k,
    {
        k += 1;
    }
    if k == s.len() {
        return None;
    }
    proof {
        let nk = next_newline(s@, from as int)->0;
        assert(next_newline(s@, from as int) is Some);
        if nk < k {
        }
        if nk > k {
        }
    }
    Some(k)
}

fn find_block_close(s: &[char], start: usize) -> (r: Option<usize>)
    requires
        start < s.len(),
    ensures
        match (r, block_comment_close(s@, start as int)) {
            (Some(k), Some(n)) => k == n && start + 3 <= k < s.len(),
            (None, None) => true,
            _ => false,
        },
{
    if s.len() - start <= 3 {
        return None;
    }
    let mut k = start + 3;
    while k < s.len() && !(s[k - 1] == '*' && s[k] == '/')
        invariant
            start + 3 <= k <= s.len(),
            forall|j: int| start + 3 <= j < k ==> !#[trigger] closes_at(s@, j),
        decreases s.len() - k,
    {
        k += 1;
    }
    if k == s.len() {
        return None;
    }
    proof {
        assert(closes_at(s@, k as int));
        let nk = block_comment_close(s@, start as int)->0;
        assert(block_comment_close(s@, start as int) is Some);
        if nk < k {
        }
        if nk > k {
        }
    }
    Some(k)
}

fn push_newlines(out: &mut Vec<char>, s: &[char], from: usize, to: usize)
    requires
        from <= to <= s.len(),
    ensures
        final(out)@ == old(out)@ + newlines_in(s@.subrange(from as int, to as int)),
{
    let mut k = from;
    assert(newlines_in(s@.subrange(from as int, from as int)) =~= Seq::<char>::empty());
    while k < to
        invariant
            from <= k <= to <= s.len(),
            out@ == old(out)@ + newlines_in(s@.subrange(from as int, k as int)),
        decreases to - k,
    {
        proof {
            assert(s@.subrange(from as int, k + 1).drop_last() == s@.subrange(
                from as int,
                k as int,
            ));
            reveal_with_fuel(Seq::<_>::filter, 1);
        }
        if s[k] == '\n' {
            out.push('\n');
        }
        k += 1;
    }
}

/// Removes `//` and `/* */` comments from JSONC text, keeping strings
/// intact and line breaks in place.
pub fn strip_jsonc_comments(input: &str) -> (r: Result<String, JsoncError>)
    ensures
        match (r, spec_strip_jsonc_comments(input@)) {
            (Ok(out), Ok(s)) => out@ == s,
            (Err(e), Err(f)) => e == f,
            _ => false,
        },
{
    let s = chars_of(input);
    let mut out: Vec<char> = Vec::new();
    let mut i: usize = 0;
    let mut in_string = false;
    let mut escaped = false;
    assert(Seq::<char>::empty() + Seq::<char>::empty() =~= Seq::<char>::empty());
    assert(out@ =~= Seq::<char>::empty());
    while i < s.len()
        invariant
            i <= s.len(),
            s@ == input@,
            !in_string ==> !escaped,
            scan_inv(s@, out@, i as int, in_string, escaped),
        decreases s.len() - i,
    {
        let ghost before = out@;
        let ghost i0 = i as int;
        let ghost st = (in_string, escaped);
        let c = s[i];
        if !in_string && c == '/' && i + 1 < s.len() && s[i + 1] == '/' {
            match find_newline(&s, i + 2) {
                None => {
                    proof {
                        lemma_step_line_end(s@, before, i0, escaped);
                    }
                    return Ok(string_of(&out));
                },
                Some(k) => {
                    proof {
                        lemma_step_line(s@, before, i0, k as int, escaped);
                    }
                    out.push('\n');
                    i = k + 1;
                    escaped = false;
                },
            }
        } else if !in_string && c == '/' && i + 1 < s.len() && s[i + 1] == '*' {
            match find_block_close(&s, i) {
                None => {
                    proof {
                        lemma_step_block_open(s@, before, i0, escaped);
                    }
                    return Err(JsoncError::UnterminatedBlockComment);
                },
                Some(k) => {
                    proof {
                        lemma_step_block(s@, before, i0, k as int, escaped);
                    }
                    push_newlines(&mut out, &s, i + 2, k);
                    i = k + 1;
                    escaped = false;
                },
            }
        } else {
            proof {
                lemma_step_char(s@, before, i0, in_string, escaped);
            }
            out.push(c);
            if in_string {
                if escaped {
                    escaped = false;
                } else if c == '\\' {
                    escaped = true;
                } else if c == '"' {
                    in_string = false;
                }
            } else if c == '"' {
                in_string = true;
            }
            i += 1;
            assert((in_string, escaped) == step_state(c, st.0, st.1));
        }
    }
    assert(out@ + Seq::<char>::empty() =~= out@);
    Ok(string_of(&out))
}

// ---------------------------------------------------------------------------
// Line breaks survive comment removal
// ---------------------------------------------------------------------------
/// Number of line breaks in `s`.
pub open spec fn line_breaks(s: Seq<char>) -> nat
    decreases s.len(),
{
    if s.len() == 0 {
        0
    } else {
        line_breaks(s.drop_last()) + if s.last() == '\n' {
            1nat
        } else {
            0nat
        }
    }
}

pub proof fn lemma_line_breaks_add(a: Seq<char>, b: Seq<char>)
    ensures
        line_breaks(a + b) == line_breaks(a) + line_breaks(b),
    decreases b.len(),
{
    if b.len() == 0 {
        assert(a + b =~= a);
    } else {
        lemma_line_breaks_add(a, b.drop_last());
        assert((a + b).drop_last() =~= a + b.drop_last());
        assert((a + b).last() == b.last());
    }
}

proof fn lemma_line_breaks_none(x: Seq<char>)
    requires
        forall|j: int| 0 <= j < x.len() ==> x[j] != '\n',
    ensures
        line_breaks(x) == 0,
    decreases x.len(),
{
    if x.len() > 0 {
        assert(x.last() == x[x.len() - 1]);
        lemma_line_breaks_none(x.drop_last());
    }
}

proof fn lemma_line_breaks_of_newlines(x: Seq<char>)
    ensures
        line_breaks(newlines_in(x)) == line_breaks(x),
    decreases x.len(),
{
    reveal_with_fuel(Seq::<_>::filter, 1);
    if x.len() > 0 {
        lemma_line_breaks_of_newlines(x.drop_last());
        if x.last() == '\n' {
            let f = x.drop_last().filter(|c: char| c == '\n');
            assert(newlines_in(x) == f.push(x.last()));
            assert(f.push(x.last()).drop_last() =~= f);
        } else {
            assert(newlines_in(x) == x.drop_last().filter(|c: char| c == '\n'));
        }
    } else {
        assert(newlines_in(x).len() == 0);
    }
}

/// What the line-break law says of the scan from position `i`.
pub open spec fn breaks_kept_from(s: Seq<char>, i: int, in_string: bool, escaped: bool) -> bool {
    strip_from(s, i, in_string, escaped) matches Ok(r) ==> line_breaks(r) == line_breaks(s.skip(i))
}

proof fn lemma_single_break(c: char)
    ensures
        line_breaks(seq![c]) == if c == '\n' {
            1nat
        } else {
            0nat
        },
{
    assert(seq![c].drop_last() =~= Seq::<char>::empty());
    assert(line_breaks(Seq::<char>::empty()) == 0);
    assert(seq![c].last() == c);
}

proof fn lemma_next_newline_range(s: Seq<char>, from: int)
    ensures
        next_newline(s, from) matches Some(k) ==> from <= k < s.len() && s[k] == '\n' && forall|
            j: int,
        | from <= j < k ==> s[j] != '\n',
{
    if exists|k: int| from <= k < s.len() && s[k] == '\n' {
        let w = choose|k: int| from <= k < s.len() && s[k] == '\n';
        lemma_first_newline(s, from, w);
    }
}

proof fn lemma_first_newline(s: Seq<char>, from: int, w: int)
    requires
        from <= w < s.len(),
        s[w] == '\n',
    ensures
        exists|k: int|
            from <= k < s.len() && s[k] == '\n' && forall|j: int| from <= j < k ==> s[j] != '\n',
    decreases w - from,
{
    if exists|j: int| from <= j < w && s[j] == '\n' {
        let j = choose|j: int| from <= j < w && s[j] == '\n';
        lemma_first_newline(s, from, j);
    } else {
        assert(forall|j: int| from <= j < w ==> s[j] != '\n');
    }
}

proof fn lemma_block_close_range(s: Seq<char>, start: int)
    ensures
        block_comment_close(s, start) matches Some(k) ==> start + 3 <= k < s.len() && closes_at(
            s,
            k,
        ),
{
    if exists|k: int| start + 3 <= k < s.len() && #[trigger] closes_at(s, k) {
        let w = choose|k: int| start + 3 <= k < s.len() && #[trigger] closes_at(s, k);
        lemma_first_close(s, start, w);
    }
}

proof fn lemma_first_close(s: Seq<char>, start: int, w: int)
    requires
        start + 3 <= w < s.len(),
        closes_at(s, w),
    ensures
        exists|k: int|
            start + 3 <= k < s.len() && closes_at(s, k) && forall|j: int|
                start + 3 <= j < k ==> !#[trigger] closes_at(s, j),
    decreases w - start,
{
    if exists|j: int| start + 3 <= j < w && #[trigger] closes_at(s, j) {
        let j = choose|j: int| start + 3 <= j < w && #[trigger] closes_at(s, j);
        lemma_first_close(s, start, j);
    } else {
        assert(forall|j: int| start + 3 <= j < w ==> !#[trigger] closes_at(s, j));
    }
}

proof fn lemma_prepend_breaks(p: Seq<char>, r: Result<Seq<char>, JsoncError>, n: nat)
    requires
        r matches Ok(rest) ==> line_breaks(rest) == n,
    ensures
        prepend(p, r) matches Ok(out) ==> line_breaks(out) == line_breaks(p) + n,
{
    if let Ok(rest) = r {
        lemma_line_breaks_add(p, rest);
    }
}

proof fn lemma_case_line_end(s: Seq<char>, i: int, escaped: bool)
    requires
        0 <= i < s.len(),
        line_comment_at(s, i, false),
        next_newline(s, i + 2) is None,
    ensures
        breaks_kept_from(s, i, false, escaped),
{
    assert forall|j: int| 0 <= j < s.skip(i).len() implies s.skip(i)[j] != '\n' by {
        assert(s.skip(i)[j] == s[i + j]);
        if j >= 2 && s[i + j] == '\n' {
            assert(exists|k: int| i + 2 <= k < s.len() && s[k] == '\n');
        }
    }
    lemma_line_breaks_none(s.skip(i));
    assert(strip_from(s, i, false, escaped) == Ok::<Seq<char>, JsoncError>(Seq::empty()));
    assert(line_breaks(Seq::<char>::empty()) == 0);
}

#[verifier::spinoff_prover]
#[verifier::rlimit(30)]
proof fn lemma_case_line(s: Seq<char>, i: int, k: int, escaped: bool)
    requires
        0 <= i < k < s.len(),
        line_comment_at(s, i, false),
        next_newline(s, i + 2) == Some(k),
        breaks_kept_from(s, k + 1, false, false),
    ensures
        breaks_kept_from(s, i, false, escaped),
{
    lemma_next_newline_range(s, i + 2);
    let head = s.subrange(i, k);
    assert forall|j: int| 0 <= j < head.len() implies head[j] != '\n' by {
        assert(head[j] == s[i + j]);
    }
    lemma_line_breaks_none(head);
    let tail = seq!['\n'] + s.skip(k + 1);
    assert(s.skip(i) =~= head + tail);
    lemma_line_breaks_add(head, tail);
    lemma_line_breaks_add(seq!['\n'], s.skip(k + 1));
    lemma_single_break('\n');
    lemma_prepend_breaks(
        seq!['\n'],
        strip_from(s, k + 1, false, false),
        line_breaks(s.skip(k + 1)),
    );
    assert(strip_from(s, i, false, escaped) == prepend(
        seq!['\n'],
        strip_from(s, k + 1, false, false),
    ));
}

proof fn lemma_block_split(s: Seq<char>, i: int, k: int)
    requires
        0 <= i,
        i + 2 <= k < s.len(),
        s[i] == '/',
        s[i + 1] == '*',
        s[k] == '/',
    ensures
        line_breaks(s.skip(i)) == line_breaks(s.subrange(i + 2, k)) + line_breaks(s.skip(k + 1)),
{
    let body = s.subrange(i + 2, k);
    let two = s.subrange(i, i + 2);
    let close = s.subrange(k, k + 1);
    assert(two[0] == s[i]);
    assert(two[1] == s[i + 1]);
    assert(close[0] == s[k]);
    let rest = close + s.skip(k + 1);
    assert(s.skip(k) =~= rest);
    assert(s.skip(i) =~= two + (body + rest));
    lemma_line_breaks_add(two, body + rest);
    lemma_line_breaks_add(body, rest);
    lemma_line_breaks_add(close, s.skip(k + 1));
    lemma_single_break(close[0]);
    assert(close =~= seq![close[0]]);
    lemma_single_break(two[1]);
    lemma_line_breaks_add(seq![two[0]], seq![two[1]]);
    assert(two =~= seq![two[0]] + seq![two[1]]);
    lemma_single_break(two[0]);
}

#[verifier::spinoff_prover]
#[verifier::rlimit(60)]
proof fn lemma_case_block(s: Seq<char>, i: int, k: int, escaped: bool)
    requires
        0 <= i < k < s.len(),
        block_comment_at(s, i, false),
        block_comment_close(s, i) == Some(k),
        breaks_kept_from(s, k + 1, false, false),
    ensures
        breaks_kept_from(s, i, false, escaped),
{
    lemma_block_close_range(s, i);
    lemma_block_split(s, i, k);
    lemma_line_breaks_of_newlines(s.subrange(i + 2, k));
    lemma_prepend_breaks(
        newlines_in(s.subrange(i + 2, k)),
        strip_from(s, k + 1, false, false),
        line_breaks(s.skip(k + 1)),
    );
    assert(strip_from(s, i, false, escaped) == prepend(
        newlines_in(s.subrange(i + 2, k)),
        strip_from(s, k + 1, false, false),
    ));
}

proof fn lemma_case_char(s: Seq<char>, i: int, in_string: bool, escaped: bool)
    requires
        0 <= i < s.len(),
        !line_comment_at(s, i, in_string),
        !block_comment_at(s, i, in_string),
        breaks_kept_from(
            s,
            i + 1,
            step_state(s[i], in_string, escaped).0,
            step_state(s[i], in_string, escaped).1,
        ),
    ensures
        breaks_kept_from(s, i, in_string, escaped),
{
    let (a, b) = step_state(s[i], in_string, escaped);
    assert(s.skip(i) =~= seq![s[i]] + s.skip(i + 1));
    lemma_line_breaks_add(seq![s[i]], s.skip(i + 1));
    lemma_prepend_breaks(seq![s[i]], strip_from(s, i + 1, a, b), line_breaks(s.skip(i + 1)));
    assert(strip_from(s, i, in_string, escaped) == prepend(
        seq![s[i]],
        strip_from(s, i + 1, a, b),
    ));
}

proof fn lemma_strip_from_line_breaks(s: Seq<char>, i: int, in_string: bool, escaped: bool)
    requires
        0 <= i <= s.len(),
    ensures
        breaks_kept_from(s, i, in_string, escaped),
    decreases s.len() - i,
{
    lemma_next_newline_range(s, i + 2);
    lemma_block_close_range(s, i);
    if i == s.len() {
        assert(s.skip(i) =~= Seq::<char>::empty());
        assert(line_breaks(Seq::<char>::empty()) == 0);
    } else if line_comment_at(s, i, in_string) {
        match next_newline(s, i + 2) {
            None => {
                lemma_case_line_end(s, i, escaped);
            },
            Some(k) => if i < k < s.len() {
                lemma_strip_from_line_breaks(s, k + 1, false, false);
                lemma_case_line(s, i, k, escaped);
            },
        }
    } else if block_comment_at(s, i, in_string) {
        match block_comment_close(s, i) {
            None => {},
            Some(k) => if i < k < s.len() {
                lemma_strip_from_line_breaks(s, k + 1, false, false);
                lemma_case_block(s, i, k, escaped);
            },
        }
    } else {
        let (a, b) = step_state(s[i], in_string, escaped);
        lemma_strip_from_line_breaks(s, i + 1, a, b);
        lemma_case_char(s, i, in_string, escaped);
    }
}

/// Removing comments keeps every line break: the text keeps its line
/// count, so positions reported by a JSON parser point at the right line.
pub proof fn law_strip_keeps_line_breaks(s: Seq<char>)
    ensures
        spec_strip_jsonc_comments(s) matches Ok(out) ==> line_breaks(out) == line_breaks(s),
{
    lemma_strip_from_line_breaks(s, 0, false, false);
    assert(s.skip(0) =~= s);
    assert(breaks_kept_from(s, 0, false, false));
}

/// A `//` or `/*` opens at the front of `r`, read outside a string.
pub open spec fn opens_comment(r: Seq<char>, in_string: bool) -> bool {
    !in_string && r.len() > 1 && r[0] == '/' && (r[1] == '/' || r[1] == '*')
}

/// Read from the given scan state, `r` holds no comment opener outside a
/// string.
pub open spec fn comment_free(r: Seq<char>, in_string: bool, escaped: bool) -> bool
    decreases r.len(),
{
    if r.len() == 0 {
        true
    } else {
        let (a, b) = step_state(r[0], in_string, escaped);
        !opens_comment(r, in_string) && comment_free(r.drop_first(), a, b)
    }
}

proof fn lemma_comment_free_kept(s: Seq<char>, j: int, in_string: bool, escaped: bool)
    requires
        0 <= j <= s.len(),
        comment_free(s.skip(j), in_string, escaped),
    ensures
        strip_from(s, j, in_string, escaped) == Ok::<Seq<char>, JsoncError>(s.skip(j)),
    decreases s.len() - j,
{
    if j == s.len() {
        assert(s.skip(j) =~= Seq::<char>::empty());
    } else {
        let t = s.skip(j);
        assert(t[0] == s[j]);
        if j + 1 < s.len() {
            assert(t[1] == s[j + 1]);
        }
        let (a, b) = step_state(s[j], in_string, escaped);
        assert(t.drop_first() =~= s.skip(j + 1));
        lemma_comment_free_kept(s, j + 1, a, b);
        assert(seq![s[j]] + s.skip(j + 1) =~= t);
    }
}

proof fn lemma_comment_free_outside_any_escape(r: Seq<char>, e1: bool, e2: bool)
    requires
        comment_free(r, false, e1),
    ensures
        comment_free(r, false, e2),
{
    if r.len() > 0 {
        assert(step_state(r[0], false, e1) == step_state(r[0], false, e2));
    }
}

proof fn lemma_newlines_comment_free(nl: Seq<char>, rest: Seq<char>, escaped: bool)
    requires
        forall|j: int| 0 <= j < nl.len() ==> nl[j] == '\n',
        comment_free(rest, false, false),
    ensures
        comment_free(nl + rest, false, escaped),
    decreases nl.len(),
{
    if nl.len() == 0 {
        assert(nl + rest =~= rest);
        lemma_comment_free_outside_any_escape(rest, false, escaped);
    } else {
        lemma_newlines_comment_free(nl.drop_first(), rest, false);
        assert((nl + rest).drop_first() =~= nl.drop_first() + rest);
        assert((nl + rest)[0] == '\n');
    }
}

proof fn lemma_strip_front(s: Seq<char>, i: int, in_string: bool, escaped: bool)
    requires
        0 <= i < s.len(),
        s[i] != '/',
    ensures
        strip_from(s, i, in_string, escaped) matches Ok(r) ==> r.len() > 0 && r[0] == s[i],
{
    let (a, b) = step_state(s[i], in_string, escaped);
    assert(strip_from(s, i, in_string, escaped) == prepend(seq![s[i]], strip_from(s, i + 1, a, b)));
}

proof fn lemma_char_comment_free(s: Seq<char>, i: int, in_string: bool, escaped: bool)
    requires
        0 <= i < s.len(),
        !line_comment_at(s, i, in_string),
        !block_comment_at(s, i, in_string),
        strip_from(
            s,
            i + 1,
            step_state(s[i], in_string, escaped).0,
            step_state(s[i], in_string, escaped).1,
        ) matches Ok(rest) ==> comment_free(
            rest,
            step_state(s[i], in_string, escaped).0,
            step_state(s[i], in_string, escaped).1,
        ),
    ensures
        strip_from(s, i, in_string, escaped) matches Ok(r) ==> comment_free(r, in_string, escaped),
{
    let (a, b) = step_state(s[i], in_string, escaped);
    assert(strip_from(s, i, in_string, escaped) == prepend(seq![s[i]], strip_from(s, i + 1, a, b)));
    if let Ok(rest) = strip_from(s, i + 1, a, b) {
        let r = seq![s[i]] + rest;
        assert(r.drop_first() =~= rest);
        assert(r[0] == s[i]);
        if !in_string && s[i] == '/' && i + 1 < s.len() {
            lemma_strip_front(s, i + 1, a, b);
            assert(r[1] == rest[0]);
        }
        if i + 1 >= s.len() {
            assert(rest =~= Seq::<char>::empty());
        }
    }
}

proof fn lemma_strip_comment_free(s: Seq<char>, i: int, in_string: bool, escaped: bool)
    requires
        0 <= i <= s.len(),
    ensures
        strip_from(s, i, in_string, escaped) matches Ok(r) ==> comment_free(r, in_string, escaped),
    decreases s.len() - i,
{
    if i == s.len() {
    } else if line_comment_at(s, i, in_string) {
        match next_newline(s, i + 2) {
            None => {},
            Some(k) => if i < k < s.len() {
                lemma_strip_comment_free(s, k + 1, false, false);
                if let Ok(rest) = strip_from(s, k + 1, false, false) {
                    lemma_newlines_comment_free(seq!['\n'], rest, escaped);
                }
            },
        }
    } else if block_comment_at(s, i, in_string) {
        match block_comment_close(s, i) {
            None => {},
            Some(k) => if i < k < s.len() {
                lemma_strip_comment_free(s, k + 1, false, false);
                if let Ok(rest) = strip_from(s, k + 1, false, false) {
                    let nl = newlines_in(s.subrange(i + 2, k));
                    assert forall|j: int| 0 <= j < nl.len() implies nl[j] == '\n' by {
                        s.subrange(i + 2, k).lemma_filter_pred(|c: char| c == '\n', j);
                    }
                    lemma_newlines_comment_free(nl, rest, escaped);
                }
            },
        }
    } else {
        let (a, b) = step_state(s[i], in_string, escaped);
        lemma_strip_comment_free(s, i + 1, a, b);
        lemma_char_comment_free(s, i, in_string, escaped);
    }
}

/// Text with no `//` or `/*` outside its strings comes back from comment
/// removal unchanged.
pub proof fn law_comment_free_text_is_kept(s: Seq<char>)
    requires
        comment_free(s, false, false),
    ensures
        spec_strip_jsonc_comments(s) == Ok::<Seq<char>, JsoncError>(s),
{
    assert(s.skip(0) =~= s);
    lemma_comment_free_kept(s, 0, false, false);
}

/// Removing comments twice gives what removing them once gave: the result
/// holds no comment left to remove.
pub proof fn law_strip_is_idempotent(s: Seq<char>)
    ensures
        spec_strip_jsonc_comments(s) matches Ok(r) ==> comment_free(r, false, false)
            && spec_strip_jsonc_comments(r) == Ok::<Seq<char>, JsoncError>(r),
{
    lemma_strip_comment_free(s, 0, false, false);
    if let Ok(r) = spec_strip_jsonc_comments(s) {
        law_comment_free_text_is_kept(r);
    }
}

/// Read from inside a string at `i` (right after a backslash or not), the
/// string closes with the quote at `k`: every character before `k` leaves
/// the scan inside the string, and the one at `k` ends it.
pub open spec fn string_closes_at(s: Seq<char>, i: int, escaped: bool, k: int) -> bool
    decreases k - i,
{
    if !(0 <= i <= k < s.len()) {
        false
    } else if i == k {
        step_state(s[k], true, escaped) == (false, false)
    } else {
        step_state(s[i], true, escaped).0 && string_closes_at(
            s,
            i + 1,
            step_state(s[i], true, escaped).1,
            k,
        )
    }
}

proof fn lemma_string_rest_copied(s: Seq<char>, i: int, escaped: bool, k: int)
    requires
        string_closes_at(s, i, escaped, k),
    ensures
        strip_from(s, i, true, escaped) == prepend(
            s.subrange(i, k + 1),
            strip_from(s, k + 1, false, false),
        ),
    decreases k - i,
{
    let (a, b) = step_state(s[i], true, escaped);
    assert(strip_from(s, i, true, escaped) == prepend(seq![s[i]], strip_from(s, i + 1, a, b)));
    if i == k {
        assert(seq![s[i]] =~= s.subrange(i, k + 1));
    } else {
        lemma_string_rest_copied(s, i + 1, b, k);
        let r = strip_from(s, k + 1, false, false);
        assert(seq![s[i]] + s.subrange(i + 1, k + 1) =~= s.subrange(i, k + 1));
        if let Ok(rest) = r {
            assert(seq![s[i]] + (s.subrange(i + 1, k + 1) + rest) =~= s.subrange(i, k + 1)
                + rest);
        }
    }
}

/// A string literal outside comments, from its opening quote at `i` to its
/// closing quote at `k`, is copied as it stands, comment markers and
/// escaped quotes included; the scan goes on after it outside a string.
pub proof fn law_string_literals_are_copied(s: Seq<char>, i: int, k: int, escaped: bool)
    requires
        0 <= i < s.len(),
        s[i] == '"',
        string_closes_at(s, i + 1, false, k),
    ensures
        strip_from(s, i, false, escaped) == prepend(
            s.subrange(i, k + 1),
            strip_from(s, k + 1, false, false),
        ),
{
    lemma_string_rest_copied(s, i + 1, false, k);
    assert(strip_from(s, i, false, escaped) == prepend(
        seq![s[i]],
        strip_from(s, i + 1, true, false),
    ));
    assert(seq![s[i]] + s.subrange(i + 1, k + 1) =~= s.subrange(i, k + 1));
    if let Ok(rest) = strip_from(s, k + 1, false, false) {
        assert(seq![s[i]] + (s.subrange(i + 1, k + 1) + rest) =~= s.subrange(i, k + 1) + rest);
    }
}

// ---------------------------------------------------------------------------
// Reading configuration files
// ---------------------------------------------------------------------------
/// Why a configuration file could not be read as JSON.
#[derive(PartialEq, Eq, Debug)]
pub enum ConfigReadError {
    /// The file is neither `.json` nor `.jsonc`.
    UnsupportedFile,
    /// A `/*` comment is never closed.
    UnterminatedBlockComment,
    /// The JSON parser refused the text, with its message.
    InvalidJson(String),
}

/// The spec form of a `ConfigReadError`.
pub enum ConfigReadErrorView {
    UnsupportedFile,
    UnterminatedBlockComment,
    InvalidJson(Seq<char>),
}

impl ConfigReadError {
    pub open spec fn view(&self) -> ConfigReadErrorView {
        match self {
            ConfigReadError::UnsupportedFile => ConfigReadErrorView::UnsupportedFile,
            ConfigReadError::UnterminatedBlockComment => ConfigReadErrorView::UnterminatedBlockComment,
            ConfigReadError::InvalidJson(m) => ConfigReadErrorView::InvalidJson(m@),
        }
    }

    /// The message shown to the user.
    pub fn message(&self) -> (r: String)
        ensures
            r@ == (match self.view() {
                ConfigReadErrorView::UnsupportedFile => "configuration files must use the .json or .jsonc extension"@,
                ConfigReadErrorView::UnterminatedBlockComment => "unterminated block comment in JSONC file"@,
                ConfigReadErrorView::InvalidJson(m) => m,
            }),
    {
        match self {
            ConfigReadError::UnsupportedFile => "configuration files must use the .json or .jsonc extension".to_owned(),
            ConfigReadError::UnterminatedBlockComment => "unterminated block comment in JSONC file".to_owned(),
            ConfigReadError::InvalidJson(m) => string_of(&chars_of(m.as_str())),
        }
    }
}

/// The spec form of a read result.
pub open spec fn read_view(r: Result<JsonValue, ConfigReadError>) -> Result<JsonView, ConfigReadErrorView> {
    match r {
        Ok(v) => Ok(v@),
        Err(e) => Err(e.view()),
    }
}

/// Plain JSON text read by the parser.
pub open spec fn spec_parse_json(text: Seq<char>) -> Result<JsonView, ConfigReadErrorView> {
    match serde_json_parse(text) {
        Ok(v) => Ok(v),
        Err(m) => Err(ConfigReadErrorView::InvalidJson(m)),
    }
}

/// JSONC text: its comments removed, then read by the parser.
pub open spec fn spec_parse_jsonc(text: Seq<char>) -> Result<JsonView, ConfigReadErrorView> {
    match spec_strip_jsonc_comments(text) {
        Err(_) => Err(ConfigReadErrorView::UnterminatedBlockComment),
        Ok(stripped) => spec_parse_json(stripped),
    }
}

/// The text of the configuration file `path`: refused unless `.json` or
/// `.jsonc`; JSONC files lose their comments before parsing.
pub open spec fn spec_parse_config_text(path: Seq<char>, text: Seq<char>) -> Result<JsonView, ConfigReadErrorView> {
    if !spec_is_supported_config_file(path) {
        Err(ConfigReadErrorView::UnsupportedFile)
    } else if spec_extension(path, false) matches Some(ext) && lower_seq(ext) == "jsonc"@ {
        spec_parse_jsonc(text)
    } else {
        spec_parse_json(text)
    }
}

/// Reads plain JSON text.
pub fn parse_json_value(text: &str) -> (r: Result<JsonValue, ConfigReadError>)
    ensures
        read_view(r) == spec_parse_json(text@),
{
    match parse_json_text(text) {
        Ok(v) => Ok(v),
        Err(m) => Err(ConfigReadError::InvalidJson(m)),
    }
}

/// Reads JSONC text: comments are removed first.
pub fn parse_jsonc_value(text: &str) -> (r: Result<JsonValue, ConfigReadError>)
    ensures
        read_view(r) == spec_parse_jsonc(text@),
{
    match strip_jsonc_comments(text) {
        Err(_) => Err(ConfigReadError::UnterminatedBlockComment),
        Ok(stripped) => parse_json_value(stripped.as_str()),
    }
}

/// Reads the text of the configuration file `path` as JSON, or as JSONC
/// when it is a `.jsonc` file.
pub fn parse_config_text(path: &str, text: &str) -> (r: Result<JsonValue, ConfigReadError>)
    ensures
        read_view(r) == spec_parse_config_text(path@, text@),
{
    if !is_supported_config_file(path) {
        Err(ConfigReadError::UnsupportedFile)
    } else if is_jsonc_file(path) {
        parse_jsonc_value(text)
    } else {
        parse_json_value(text)
    }
}

} // verus!
