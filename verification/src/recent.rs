//! The recent-file history: which paths are remembered, in which order, and
//! what the history file holds.
//!
//! The history file holds one path per line, most recent first. Reading and
//! writing the file is done by the caller; this module decides what the list
//! is and what text is written.
use vstd::prelude::*;

use crate::lines::{lemma_text_lines_nonempty, text_lines};
use crate::paths::{
    components, eq_ignore_ascii_case, file_name, path_eq, path_starts_with, spec_file_name,
    spec_path_starts_with,
};
use crate::text::{
    chars_of, extend_chars, is_blank, is_blank_chars, is_ws, lemma_blank_iff_trim_empty,
    lemma_leading_ws, lemma_trailing_ws, leading_ws, lower_seq, lowercase, seq_ends_with,
    seq_starts_with, starts_with, string_of, trailing_ws, trim, trim_chars, trim_end, trim_start,
};

verus! {

broadcast use vstd::string::group_string_axioms;

/// Maximum number of remembered files.
pub const RECENT_FILES_LIMIT: usize = 20;

/// Facts about the platform that the history rules depend on.
pub struct PathPlatform {
    /// The system temporary directory.
    pub temp_dir: String,
    /// Whether paths follow Windows conventions (case-insensitive, `\`).
    pub windows: bool,
}

/// Why a file could not be recorded.
#[derive(PartialEq, Eq, Structural, Debug)]
pub enum RecentFileError {
    /// The path is empty or blank.
    EmptyPath,
}

/// What recording a file gives: the new history, and whether it must be
/// written back to the history file.
pub struct RecordOutcome {
    pub paths: Vec<String>,
    pub persist: bool,
}

// ---------------------------------------------------------------------------
// Specification
// ---------------------------------------------------------------------------
/// `path.replace('/', "\\")`.
pub open spec fn backslashed(s: Seq<char>) -> Seq<char> {
    s.map_values(|c: char| if c == '/' {
        '\\'
    } else {
        c
    })
}

/// Number of trailing copies of `c`.
pub open spec fn trailing_run(s: Seq<char>, c: char) -> nat
    decreases s.len(),
{
    if s.len() > 0 && s.last() == c {
        1 + trailing_run(s.drop_last(), c)
    } else {
        0
    }
}

/// Windows path text compared case-insensitively, with `/` as `\` and
/// without trailing separators.
pub open spec fn spec_normalize_windows_path_text(p: Seq<char>) -> Seq<char> {
    let b = backslashed(p);
    lower_seq(b.take(b.len() - trailing_run(b, '\\')))
}

/// Is `path` inside the system temporary directory?
pub open spec fn spec_is_inside_system_temp_dir(path: Seq<char>, temp: Seq<char>, windows: bool) -> bool {
    if windows {
        let t = spec_normalize_windows_path_text(temp);
        let t2 = if seq_ends_with(t, seq!['\\']) {
            t
        } else {
            t.push('\\')
        };
        seq_starts_with(spec_normalize_windows_path_text(path), t2)
    } else {
        spec_path_starts_with(path, temp, false)
    }
}

/// Does the file name look like a drag-and-drop fixture that Velotype's own
/// tests leave in the temporary directory?
pub open spec fn spec_has_velotype_temp_fixture_name(path: Seq<char>, windows: bool) -> bool {
    match spec_file_name(path, windows) {
        None => false,
        Some(name) => seq_starts_with(lower_seq(name), "velotype-drop-"@) || seq_starts_with(
            lower_seq(name),
            "velotypre-drop-"@,
        ),
    }
}

/// May `path` appear in the history?
pub open spec fn spec_is_recordable(path: Seq<char>, temp: Seq<char>, windows: bool) -> bool {
    !is_blank(path) && !(spec_is_inside_system_temp_dir(path, temp, windows)
        && spec_has_velotype_temp_fixture_name(path, windows))
}

/// Do two history entries name the same file?
pub open spec fn spec_same_recent_path(left: Seq<char>, right: Seq<char>, windows: bool) -> bool {
    if windows {
        lower_seq(left) == lower_seq(right)
    } else {
        components(left, false) == components(right, false)
    }
}

/// Does `acc` already hold an entry for `p`?
pub open spec fn holds_same(acc: Seq<Seq<char>>, p: Seq<char>, windows: bool) -> bool {
    exists|i: int| 0 <= i < acc.len() && spec_same_recent_path(#[trigger] acc[i], p, windows)
}

/// One step of normalization: the trimmed path is appended unless the list
/// is full, the path is blank or not recordable, or already present.
pub open spec fn normalize_step(acc: Seq<Seq<char>>, p: Seq<char>, temp: Seq<char>, windows: bool) -> Seq<Seq<char>> {
    let t = trim(p);
    if acc.len() >= RECENT_FILES_LIMIT || t.len() == 0 || !spec_is_recordable(t, temp, windows)
        || holds_same(acc, t, windows) {
        acc
    } else {
        acc.push(t)
    }
}

/// The history made of `paths`: trimmed, recordable, first occurrence of
/// each file only, at most `RECENT_FILES_LIMIT` entries.
pub open spec fn spec_normalize(paths: Seq<Seq<char>>, temp: Seq<char>, windows: bool) -> Seq<Seq<char>>
    decreases paths.len(),
{
    if paths.len() == 0 {
        Seq::empty()
    } else {
        normalize_step(spec_normalize(paths.drop_last(), temp, windows), paths.last(), temp, windows)
    }
}

/// A well-formed history: what `spec_normalize` produces.
pub open spec fn history_wf(h: Seq<Seq<char>>, temp: Seq<char>, windows: bool) -> bool {
    &&& h.len() <= RECENT_FILES_LIMIT
    &&& forall|i: int|
        0 <= i < h.len() ==> {
            &&& trim(#[trigger] h[i]) == h[i]
            &&& h[i].len() > 0
            &&& spec_is_recordable(h[i], temp, windows)
        }
    &&& forall|i: int, j: int|
        0 <= i < j < h.len() ==> !spec_same_recent_path(#[trigger] h[i], #[trigger] h[j], windows)
}

/// Each path followed by a line break.
pub open spec fn join_lines(paths: Seq<Seq<char>>) -> Seq<char>
    decreases paths.len(),
{
    if paths.len() == 0 {
        Seq::empty()
    } else {
        join_lines(paths.drop_last()) + paths.last().push('\n')
    }
}

/// What the history file should hold for `paths`: `None` when the file
/// should be removed.
pub open spec fn spec_history_content(paths: Seq<Seq<char>>, temp: Seq<char>, windows: bool) -> Option<Seq<char>> {
    let n = spec_normalize(paths, temp, windows);
    if n.len() == 0 {
        None
    } else {
        Some(join_lines(n))
    }
}

/// The history that a history file holding `text` gives.
pub open spec fn spec_read_history(text: Seq<char>, temp: Seq<char>, windows: bool) -> Seq<Seq<char>> {
    spec_normalize(text_lines(text), temp, windows)
}

/// `history` without the entries for `path`.
pub open spec fn without_path(history: Seq<Seq<char>>, path: Seq<char>, windows: bool) -> Seq<Seq<char>> {
    history.filter(|e: Seq<char>| !spec_same_recent_path(e, path, windows))
}

/// Recording `path`: it moves to the front and the list is cut to the limit.
pub open spec fn spec_record(history: Seq<Seq<char>>, path: Seq<char>, temp: Seq<char>, windows: bool) -> Result<(Seq<Seq<char>>, bool), RecentFileError> {
    if is_blank(path) {
        Err(RecentFileError::EmptyPath)
    } else if !spec_is_recordable(path, temp, windows) {
        Ok((history, false))
    } else {
        let moved = seq![path] + without_path(history, path, windows);
        Ok(
            (
                if moved.len() > RECENT_FILES_LIMIT {
                    moved.take(RECENT_FILES_LIMIT as int)
                } else {
                    moved
                },
                true,
            ),
        )
    }
}

pub open spec fn strings_view(v: Seq<String>) -> Seq<Seq<char>> {
    v.map_values(|s: String| s@)
}

// ---------------------------------------------------------------------------
// Implementation
// ---------------------------------------------------------------------------
/// Windows path text lower-cased, with `/` as `\` and without trailing
/// separators.
pub fn normalize_windows_path_text(path: &str) -> (r: String)
    ensures
        r@ == spec_normalize_windows_path_text(path@),
{
    let p = chars_of(path);
    let mut b: Vec<char> = Vec::new();
    let mut i: usize = 0;
    while i < p.len()
        invariant
            i <= p.len(),
            b@ == backslashed(p@.take(i as int)),
        decreases p.len() - i,
    {
        let c = if p[i] == '/' {
            '\\'
        } else {
            p[i]
        };
        b.push(c);
        i += 1;
        assert(b@ =~= backslashed(p@.take(i as int)));
    }
    assert(p@.take(p.len() as int) == p@);
    let mut end = b.len();
    assert(b@.take(b.len() as int) == b@);
    while end > 0 && b[end - 1] == '\\'
        invariant
            end <= b.len(),
            trailing_run(b@, '\\') == (b.len() - end) + trailing_run(b@.take(end as int), '\\'),
        decreases end,
    {
        assert(b@.take(end as int).drop_last() == b@.take(end - 1));
        end -= 1;
    }
    assert(trailing_run(b@.take(end as int), '\\') == 0);
    let kept = crate::text::slice_chars(&b, 0, end);
    let lowered = lowercase(&kept);
    string_of(&lowered)
}

/// Is `path` inside the temporary directory of `platform`?
pub fn is_inside_system_temp_dir(path: &str, platform: &PathPlatform) -> (r: bool)
    ensures
        r == spec_is_inside_system_temp_dir(path@, platform.temp_dir@, platform.windows),
{
    if platform.windows {
        let path_text = chars_of(normalize_windows_path_text(path).as_str());
        let mut temp_text = chars_of(normalize_windows_path_text(platform.temp_dir.as_str()).as_str());
        let sep = vec!['\\'];
        assert(sep@ =~= seq!['\\']);
        if !crate::text::ends_with(&temp_text, &sep) {
            temp_text.push('\\');
        }
        starts_with(&path_text, &temp_text)
    } else {
        let p = chars_of(path);
        let t = chars_of(platform.temp_dir.as_str());
        path_starts_with(&p, &t, false)
    }
}

/// Does the file name look like a Velotype drag-and-drop test fixture?
pub fn has_velotype_temp_fixture_name(path: &str, windows: bool) -> (r: bool)
    ensures
        r == spec_has_velotype_temp_fixture_name(path@, windows),
{
    let p = chars_of(path);
    match file_name(&p, windows) {
        None => false,
        Some(name) => {
            let lower = lowercase(&name);
            let a = chars_of("velotype-drop-");
            let b = chars_of("velotypre-drop-");
            starts_with(&lower, &a) || starts_with(&lower, &b)
        },
    }
}

/// May `path` appear in the recent-file history?
pub fn is_recordable_recent_file_path(path: &str, platform: &PathPlatform) -> (r: bool)
    ensures
        r == spec_is_recordable(path@, platform.temp_dir@, platform.windows),
{
    let p = chars_of(path);
    if is_blank_chars(&p) {
        return false;
    }
    !(is_inside_system_temp_dir(path, platform) && has_velotype_temp_fixture_name(
        path,
        platform.windows,
    ))
}

/// Do two history entries name the same file?
pub fn same_recent_path(left: &str, right: &str, windows: bool) -> (r: bool)
    ensures
        r == spec_same_recent_path(left@, right@, windows),
{
    let l = chars_of(left);
    let r = chars_of(right);
    if windows {
        eq_ignore_ascii_case(&l, &r)
    } else {
        path_eq(&l, &r, false)
    }
}

fn holds_same_exec(acc: &Vec<String>, p: &str, windows: bool) -> (r: bool)
    ensures
        r == holds_same(strings_view(acc@), p@, windows),
{
    let ghost av = strings_view(acc@);
    let mut i: usize = 0;
    while i < acc.len()
        invariant
            i <= acc.len(),
            av == strings_view(acc@),
            forall|j: int| 0 <= j < i ==> !spec_same_recent_path(#[trigger] av[j], p@, windows),
        decreases acc.len() - i,
    {
        assert(av[i as int] == acc@[i as int]@);
        if same_recent_path(acc[i].as_str(), p, windows) {
            return true;
        }
        i += 1;
    }
    false
}

/// Normalizes a history: trimmed, recordable entries, first occurrence of
/// each file only, at most `RECENT_FILES_LIMIT` of them.
pub fn normalize_recent_files(paths: &[String], platform: &PathPlatform) -> (out: Vec<String>)
    ensures
        strings_view(out@) == spec_normalize(
            strings_view(paths@),
            platform.temp_dir@,
            platform.windows,
        ),
        history_wf(strings_view(out@), platform.temp_dir@, platform.windows),
{
    let ghost temp = platform.temp_dir@;
    let ghost w = platform.windows;
    let ghost ps = strings_view(paths@);
    let mut out: Vec<String> = Vec::new();
    let mut i: usize = 0;
    assert(strings_view(out@) =~= spec_normalize(ps.take(0), temp, w));
    while i < paths.len()
        invariant
            i <= paths.len(),
            ps == strings_view(paths@),
            temp == platform.temp_dir@,
            w == platform.windows,
            strings_view(out@) == spec_normalize(ps.take(i as int), temp, w),
            history_wf(strings_view(out@), temp, w),
        decreases paths.len() - i,
    {
        let ghost before = strings_view(out@);
        assert(ps.take(i + 1).drop_last() == ps.take(i as int));
        assert(ps.take(i + 1).last() == paths@[i as int]@);
        let line = chars_of(paths[i].as_str());
        let t = trim_chars(&line);
        let ts = string_of(&t);
        if out.len() < RECENT_FILES_LIMIT && t.len() > 0 && is_recordable_recent_file_path(
            ts.as_str(),
            platform,
        ) && !holds_same_exec(&out, ts.as_str(), platform.windows) {
            out.push(ts);
            assert(strings_view(out@) =~= before.push(t@));
            proof {
                lemma_trim_idempotent(paths@[i as int]@);
                assert forall|a: int, b: int|
                    0 <= a < b < strings_view(out@).len() implies !spec_same_recent_path(
                    #[trigger] strings_view(out@)[a],
                    #[trigger] strings_view(out@)[b],
                    w,
                ) by {
                    if b == before.len() {
                        assert(strings_view(out@)[a] == before[a]);
                    } else {
                        assert(strings_view(out@)[a] == before[a]);
                        assert(strings_view(out@)[b] == before[b]);
                    }
                }
                assert forall|a: int| 0 <= a < strings_view(out@).len() implies {
                    &&& trim(#[trigger] strings_view(out@)[a]) == strings_view(out@)[a]
                    &&& strings_view(out@)[a].len() > 0
                    &&& spec_is_recordable(strings_view(out@)[a], temp, w)
                } by {
                    if a < before.len() {
                        assert(strings_view(out@)[a] == before[a]);
                    }
                }
            }
        }
        i += 1;
    }
    assert(ps.take(paths.len() as int) == ps);
    out
}

/// The history held by a history file whose text is `text`.
pub fn read_recent_files(text: &str, platform: &PathPlatform) -> (out: Vec<String>)
    ensures
        strings_view(out@) == spec_read_history(text@, platform.temp_dir@, platform.windows),
        history_wf(strings_view(out@), platform.temp_dir@, platform.windows),
{
    let t = chars_of(text);
    let mut lines: Vec<String> = Vec::new();
    let mut cur: Vec<char> = Vec::new();
    let mut i: usize = 0;
    assert(t@.take(0) == Seq::<char>::empty());
    while i < t.len()
        invariant
            i <= t.len(),
            t@ == text@,
            strings_view(lines@).push(cur@) == text_lines(t@.take(i as int)),
        decreases t.len() - i,
    {
        let ghost before_lines = strings_view(lines@);
        let ghost before_cur = cur@;
        assert(t@.take(i + 1).drop_last() == t@.take(i as int));
        assert(t@.take(i + 1).last() == t@[i as int]);
        if t[i] == '\n' {
            let done = string_of(&cur);
            lines.push(done);
            cur = Vec::new();
            assert(strings_view(lines@) =~= before_lines.push(before_cur));
            assert(strings_view(lines@).push(cur@) =~= before_lines.push(before_cur).push(
                Seq::<char>::empty(),
            ));
        } else {
            cur.push(t[i]);
            assert(strings_view(lines@).push(cur@) =~= before_lines.push(before_cur).update(
                before_lines.len() as int,
                before_cur.push(t@[i as int]),
            ));
        }
        i += 1;
    }
    let last = string_of(&cur);
    let ghost before_lines = strings_view(lines@);
    lines.push(last);
    assert(strings_view(lines@) =~= before_lines.push(cur@));
    assert(t@.take(t.len() as int) == t@);
    normalize_recent_files(&lines, platform)
}

/// The text of a history file for `paths`, or `None` when the history is
/// empty and the file should be removed.
pub fn history_file_content(paths: &[String], platform: &PathPlatform) -> (r: Option<String>)
    ensures
        match (r, spec_history_content(
            strings_view(paths@),
            platform.temp_dir@,
            platform.windows,
        )) {
            (Some(s), Some(c)) => s@ == c,
            (None, None) => true,
            _ => false,
        },
{
    let normalized = normalize_recent_files(paths, platform);
    if normalized.len() == 0 {
        return None;
    }
    let ghost n = strings_view(normalized@);
    let mut content: Vec<char> = Vec::new();
    let mut i: usize = 0;
    assert(n.take(0) == Seq::<Seq<char>>::empty());
    while i < normalized.len()
        invariant
            i <= normalized.len(),
            n == strings_view(normalized@),
            content@ == join_lines(n.take(i as int)),
        decreases normalized.len() - i,
    {
        assert(n.take(i + 1).drop_last() == n.take(i as int));
        assert(n.take(i + 1).last() == normalized@[i as int]@);
        let entry = chars_of(normalized[i].as_str());
        extend_chars(&mut content, &entry);
        content.push('\n');
        i += 1;
    }
    assert(n.take(normalized.len() as int) == n);
    Some(string_of(&content))
}

/// Moves `path` to the front of the history.
///
/// A blank path is an error; a path that may not be remembered leaves the
/// history as it is and asks for no write.
pub fn record_recent_file(history: &[String], path: &str, platform: &PathPlatform) -> (r: Result<RecordOutcome, RecentFileError>)
    ensures
        match (r, spec_record(
            strings_view(history@),
            path@,
            platform.temp_dir@,
            platform.windows,
        )) {
            (Ok(o), Ok((h, persist))) => strings_view(o.paths@) == h && o.persist == persist,
            (Err(e), Err(f)) => e == f,
            _ => false,
        },
{
    let p = chars_of(path);
    if is_blank_chars(&p) {
        return Err(RecentFileError::EmptyPath);
    }
    if !is_recordable_recent_file_path(path, platform) {
        let mut copy: Vec<String> = Vec::new();
        let mut i: usize = 0;
        while i < history.len()
            invariant
                i <= history.len(),
                strings_view(copy@) == strings_view(history@).take(i as int),
            decreases history.len() - i,
        {
            let ghost before = strings_view(copy@);
            copy.push(string_of(&chars_of(history[i].as_str())));
            assert(strings_view(copy@) =~= before.push(history@[i as int]@));
            i += 1;
            assert(strings_view(copy@) =~= strings_view(history@).take(i as int));
        }
        assert(strings_view(history@).take(history.len() as int) == strings_view(history@));
        return Ok(RecordOutcome { paths: copy, persist: false });
    }
    let mut kept = remove_recent_file(history, path, platform.windows);
    let ghost rest = strings_view(kept@);
    kept.insert(0, string_of(&p));
    assert(strings_view(kept@) =~= seq![path@] + rest);
    if kept.len() > RECENT_FILES_LIMIT {
        kept.truncate(RECENT_FILES_LIMIT);
        assert(strings_view(kept@) =~= (seq![path@] + rest).take(RECENT_FILES_LIMIT as int));
    }
    Ok(RecordOutcome { paths: kept, persist: true })
}

/// The history without the entries for `path`.
pub fn remove_recent_file(history: &[String], path: &str, windows: bool) -> (out: Vec<String>)
    ensures
        strings_view(out@) == without_path(strings_view(history@), path@, windows),
{
    let ghost hs = strings_view(history@);
    let mut out: Vec<String> = Vec::new();
    let mut i: usize = 0;
    assert(hs.take(0).filter(|e: Seq<char>| !spec_same_recent_path(e, path@, windows))
        =~= Seq::<Seq<char>>::empty());
    while i < history.len()
        invariant
            i <= history.len(),
            hs == strings_view(history@),
            strings_view(out@) == without_path(hs.take(i as int), path@, windows),
        decreases history.len() - i,
    {
        let ghost before = strings_view(out@);
        assert(hs.take(i + 1).drop_last() == hs.take(i as int));
        assert(hs.take(i + 1).last() == history@[i as int]@);
        proof {
            reveal_with_fuel(Seq::<_>::filter, 1);
        }
        if !same_recent_path(history[i].as_str(), path, windows) {
            out.push(string_of(&chars_of(history[i].as_str())));
            assert(strings_view(out@) =~= before.push(history@[i as int]@));
        }
        i += 1;
    }
    assert(hs.take(history.len() as int) == hs);
    out
}

// ---------------------------------------------------------------------------
// Laws
// ---------------------------------------------------------------------------
/// Trimming twice is trimming once.
pub proof fn lemma_trim_idempotent(s: Seq<char>)
    ensures
        trim(trim(s)) == trim(s),
{
    let a = trim_start(s);
    let t = trim_end(a);
    lemma_leading_ws(s);
    lemma_trailing_ws(a);
    lemma_leading_ws(t);
    lemma_trailing_ws(t);
    if t.len() > 0 {
        assert(t[0] == a[0]);
        assert(!is_ws(a[0]));
        if leading_ws(t) > 0 {
            assert(is_ws(t[0]));
        }
        assert(t.last() == a[a.len() - trailing_ws(a) - 1]);
        if trailing_ws(t) > 0 {
            assert(is_ws(t[t.len() - 1]));
        }
        assert(leading_ws(t) == 0);
        assert(trailing_ws(t) == 0);
        assert(trim_start(t) == t);
        assert(trim(t) =~= t);
    } else {
        assert(trim(t) =~= t);
    }
}

/// Normalization keeps a well-formed history unchanged.
pub proof fn lemma_normalize_wf_fixed(h: Seq<Seq<char>>, temp: Seq<char>, windows: bool)
    requires
        history_wf(h, temp, windows),
    ensures
        spec_normalize(h, temp, windows) == h,
    decreases h.len(),
{
    if h.len() > 0 {
        let p = h.drop_last();
        assert(history_wf(p, temp, windows)) by {
            assert forall|i: int, j: int| 0 <= i < j < p.len() implies !spec_same_recent_path(
                #[trigger] p[i],
                #[trigger] p[j],
                windows,
            ) by {
                assert(p[i] == h[i] && p[j] == h[j]);
            }
            assert forall|i: int| 0 <= i < p.len() implies {
                &&& trim(#[trigger] p[i]) == p[i]
                &&& p[i].len() > 0
                &&& spec_is_recordable(p[i], temp, windows)
            } by {
                assert(p[i] == h[i]);
            }
        }
        lemma_normalize_wf_fixed(p, temp, windows);
        let last = h.last();
        assert(trim(last) == last);
        if holds_same(p, last, windows) {
            let k = choose|k: int| 0 <= k < p.len() && spec_same_recent_path(#[trigger] p[k], last, windows);
            assert(h[k] == p[k]);
            assert(!spec_same_recent_path(h[k], h[h.len() - 1], windows));
        }
        assert(p.push(last) =~= h);
    }
}

/// The normalization of a history is well formed.
pub proof fn lemma_normalize_wf(paths: Seq<Seq<char>>, temp: Seq<char>, windows: bool)
    ensures
        history_wf(spec_normalize(paths, temp, windows), temp, windows),
    decreases paths.len(),
{
    if paths.len() > 0 {
        lemma_normalize_wf(paths.drop_last(), temp, windows);
        let acc = spec_normalize(paths.drop_last(), temp, windows);
        let t = trim(paths.last());
        let r = spec_normalize(paths, temp, windows);
        if r != acc {
            assert(r == acc.push(t));
            lemma_trim_idempotent(paths.last());
            assert forall|i: int, j: int| 0 <= i < j < r.len() implies !spec_same_recent_path(
                #[trigger] r[i],
                #[trigger] r[j],
                windows,
            ) by {
                assert(r[i] == acc[i]);
                if j < acc.len() {
                    assert(r[j] == acc[j]);
                }
            }
            assert forall|i: int| 0 <= i < r.len() implies {
                &&& trim(#[trigger] r[i]) == r[i]
                &&& r[i].len() > 0
                &&& spec_is_recordable(r[i], temp, windows)
            } by {
                if i < acc.len() {
                    assert(r[i] == acc[i]);
                }
            }
        }
    }
}

/// Normalizing a history twice gives the same history as normalizing it
/// once.
pub proof fn law_normalize_idempotent(paths: Seq<Seq<char>>, temp: Seq<char>, windows: bool)
    ensures
        spec_normalize(spec_normalize(paths, temp, windows), temp, windows) == spec_normalize(
            paths,
            temp,
            windows,
        ),
{
    lemma_normalize_wf(paths, temp, windows);
    lemma_normalize_wf_fixed(spec_normalize(paths, temp, windows), temp, windows);
}


/// Appending a line-free text to a text extends its last line.
pub proof fn lemma_text_lines_extend(x: Seq<char>, e: Seq<char>)
    requires
        !crate::text::has_char(e, '\n'),
    ensures
        text_lines(x + e).len() == text_lines(x).len(),
        text_lines(x + e) == text_lines(x).update(
            text_lines(x).len() - 1,
            text_lines(x).last() + e,
        ),
    decreases e.len(),
{
    lemma_text_lines_nonempty(x);
    if e.len() == 0 {
        assert(x + e =~= x);
        assert(text_lines(x).last() + e =~= text_lines(x).last());
        assert(text_lines(x).update(text_lines(x).len() - 1, text_lines(x).last())
            =~= text_lines(x));
    } else {
        let e0 = e.drop_last();
        assert(!crate::text::has_char(e0, '\n')) by {
            assert forall|i: int| 0 <= i < e0.len() implies e0[i] != '\n' by {
                assert(e0[i] == e[i]);
            }
        }
        lemma_text_lines_extend(x, e0);
        assert((x + e).drop_last() =~= x + e0);
        assert((x + e).last() == e.last());
        assert(e.last() != '\n') by {
            assert(e[e.len() - 1] == e.last());
        }
        lemma_text_lines_nonempty(x + e0);
        assert(text_lines(x).last() + e =~= (text_lines(x).last() + e0).push(e.last()));
        assert(text_lines(x + e) =~= text_lines(x).update(
            text_lines(x).len() - 1,
            text_lines(x).last() + e,
        ));
    }
}

/// No entry contains a line break.
pub open spec fn single_line_entries(n: Seq<Seq<char>>) -> bool {
    forall|i: int| 0 <= i < n.len() ==> !crate::text::has_char(#[trigger] n[i], '\n')
}

/// Splitting the written text into lines gives back the entries, followed
/// by the empty text after the final line break.
pub proof fn lemma_text_lines_join(n: Seq<Seq<char>>)
    requires
        single_line_entries(n),
    ensures
        text_lines(join_lines(n)) == n.push(Seq::<char>::empty()),
    decreases n.len(),
{
    if n.len() == 0 {
        assert(text_lines(Seq::<char>::empty()) =~= seq![Seq::<char>::empty()]);
    } else {
        let m = n.drop_last();
        assert(single_line_entries(m)) by {
            assert forall|i: int| 0 <= i < m.len() implies !crate::text::has_char(
                #[trigger] m[i],
                '\n',
            ) by {
                assert(m[i] == n[i]);
            }
        }
        lemma_text_lines_join(m);
        let x = join_lines(m);
        let e = n.last();
        assert(!crate::text::has_char(e, '\n')) by {
            assert(n[n.len() - 1] == e);
        }
        lemma_text_lines_extend(x, e);
        assert(join_lines(n) == x + e.push('\n'));
        assert((x + e.push('\n')).drop_last() =~= x + e);
        assert((x + e.push('\n')).last() == '\n');
        assert(m.push(Seq::<char>::empty()).last() + e =~= e);
        assert(text_lines(x + e) =~= m.push(e));
        assert(text_lines(join_lines(n)) =~= m.push(e).push(Seq::<char>::empty()));
        assert(m.push(e) =~= n);
    }
}

/// What a read of the history file gives back is what was written: reading
/// the text written for `paths` yields the normalized history of `paths`.
/// (Entries that contain a line break cannot survive the one-per-line
/// format and are excluded.)
pub proof fn law_history_round_trip(paths: Seq<Seq<char>>, temp: Seq<char>, windows: bool)
    requires
        single_line_entries(spec_normalize(paths, temp, windows)),
        spec_normalize(paths, temp, windows).len() > 0,
    ensures
        spec_history_content(paths, temp, windows) matches Some(text) && spec_read_history(
            text,
            temp,
            windows,
        ) == spec_normalize(paths, temp, windows),
{
    let n = spec_normalize(paths, temp, windows);
    lemma_text_lines_join(n);
    lemma_normalize_wf(paths, temp, windows);
    lemma_normalize_wf_fixed(n, temp, windows);
    let lines = n.push(Seq::<char>::empty());
    assert(lines.drop_last() =~= n);
    assert(trim(Seq::<char>::empty()) =~= Seq::<char>::empty());
    assert(spec_normalize(lines, temp, windows) == n);
}

/// Removing a file from a well-formed history keeps it well formed and
/// leaves no entry for that file.
pub proof fn lemma_without_path_wf(h: Seq<Seq<char>>, p: Seq<char>, temp: Seq<char>, windows: bool)
    requires
        history_wf(h, temp, windows),
    ensures
        history_wf(without_path(h, p, windows), temp, windows),
        !holds_same(without_path(h, p, windows), p, windows),
        without_path(h, p, windows).len() <= h.len(),
    decreases h.len(),
{
    reveal_with_fuel(Seq::<_>::filter, 1);
    if h.len() > 0 {
        let m = h.drop_last();
        assert(history_wf(m, temp, windows)) by {
            assert forall|i: int, j: int| 0 <= i < j < m.len() implies !spec_same_recent_path(
                #[trigger] m[i],
                #[trigger] m[j],
                windows,
            ) by {
                assert(m[i] == h[i] && m[j] == h[j]);
            }
            assert forall|i: int| 0 <= i < m.len() implies {
                &&& trim(#[trigger] m[i]) == m[i]
                &&& m[i].len() > 0
                &&& spec_is_recordable(m[i], temp, windows)
            } by {
                assert(m[i] == h[i]);
            }
        }
        lemma_without_path_wf(m, p, temp, windows);
        let wm = without_path(m, p, windows);
        let w = without_path(h, p, windows);
        let last = h.last();
        if !spec_same_recent_path(last, p, windows) {
            assert(w == wm.push(last));
            // every entry of wm comes from m
            lemma_without_path_members(m, p, windows);
            assert forall|i: int, j: int| 0 <= i < j < w.len() implies !spec_same_recent_path(
                #[trigger] w[i],
                #[trigger] w[j],
                windows,
            ) by {
                assert(w[i] == wm[i]);
                if j < wm.len() {
                    assert(w[j] == wm[j]);
                } else {
                    let k = choose|k: int| 0 <= k < m.len() && m[k] == wm[i];
                    assert(h[k] == m[k]);
                    assert(!spec_same_recent_path(h[k], h[h.len() - 1], windows));
                }
            }
            assert forall|i: int| 0 <= i < w.len() implies {
                &&& trim(#[trigger] w[i]) == w[i]
                &&& w[i].len() > 0
                &&& spec_is_recordable(w[i], temp, windows)
            } by {
                if i < wm.len() {
                    assert(w[i] == wm[i]);
                }
            }
            assert forall|i: int| 0 <= i < w.len() implies !spec_same_recent_path(
                #[trigger] w[i],
                p,
                windows,
            ) by {
                if i < wm.len() {
                    assert(w[i] == wm[i]);
                }
            }
        } else {
            assert(w == wm);
        }
    }
}

/// Every entry of `without_path(h, p)` is an entry of `h`.
pub proof fn lemma_without_path_members(h: Seq<Seq<char>>, p: Seq<char>, windows: bool)
    ensures
        forall|i: int|
            0 <= i < without_path(h, p, windows).len() ==> exists|k: int|
                0 <= k < h.len() && h[k] == #[trigger] without_path(h, p, windows)[i],
    decreases h.len(),
{
    reveal_with_fuel(Seq::<_>::filter, 1);
    if h.len() > 0 {
        let m = h.drop_last();
        lemma_without_path_members(m, p, windows);
        let wm = without_path(m, p, windows);
        let w = without_path(h, p, windows);
        assert forall|i: int| 0 <= i < w.len() implies exists|k: int|
            0 <= k < h.len() && h[k] == #[trigger] w[i] by {
            if i < wm.len() {
                assert(w[i] == wm[i]);
                let k = choose|k: int| 0 <= k < m.len() && m[k] == wm[i];
                assert(h[k] == m[k]);
            } else {
                assert(h[h.len() - 1] == w[i]);
            }
        }
    }
}

/// Recording a file puts it first, keeps the history well formed, and
/// leaves no other entry for the same file. (A path with surrounding blanks
/// is stored as given, so it is required to be trimmed.)
pub proof fn law_record_moves_to_front(
    history: Seq<Seq<char>>,
    path: Seq<char>,
    temp: Seq<char>,
    windows: bool,
)
    requires
        history_wf(history, temp, windows),
        trim(path) == path,
        spec_is_recordable(path, temp, windows),
    ensures
        spec_record(history, path, temp, windows) matches Ok((h, true)) && {
            &&& h[0] == path
            &&& history_wf(h, temp, windows)
            &&& !holds_same(h.drop_first(), path, windows)
            &&& spec_normalize(h, temp, windows) == h
        },
{
    lemma_without_path_wf(history, path, temp, windows);
    let w = without_path(history, path, windows);
    let moved = seq![path] + w;
    let h = if moved.len() > RECENT_FILES_LIMIT {
        moved.take(RECENT_FILES_LIMIT as int)
    } else {
        moved
    };
    lemma_blank_iff_trim_empty(path);
    assert(path.len() > 0);
    assert forall|i: int, j: int| 0 <= i < j < h.len() implies !spec_same_recent_path(
        #[trigger] h[i],
        #[trigger] h[j],
        windows,
    ) by {
        assert(h[j] == w[j - 1]);
        if i == 0 {
            assert(h[0] == path);
            assert(!spec_same_recent_path(w[j - 1], path, windows));
        } else {
            assert(h[i] == w[i - 1]);
        }
    }
    assert forall|i: int| 0 <= i < h.len() implies {
        &&& trim(#[trigger] h[i]) == h[i]
        &&& h[i].len() > 0
        &&& spec_is_recordable(h[i], temp, windows)
    } by {
        if i > 0 {
            assert(h[i] == w[i - 1]);
        }
    }
    assert forall|i: int| 0 <= i < h.drop_first().len() implies !spec_same_recent_path(
        #[trigger] h.drop_first()[i],
        path,
        windows,
    ) by {
        assert(h.drop_first()[i] == w[i]);
    }
    lemma_normalize_wf_fixed(h, temp, windows);
}

/// Removing a file leaves no entry for it and keeps the history well formed.
pub proof fn law_remove_forgets(history: Seq<Seq<char>>, path: Seq<char>, temp: Seq<char>, windows: bool)
    requires
        history_wf(history, temp, windows),
    ensures
        !holds_same(without_path(history, path, windows), path, windows),
        history_wf(without_path(history, path, windows), temp, windows),
{
    lemma_without_path_wf(history, path, temp, windows);
}

} // verus!
