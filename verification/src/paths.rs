//! Path text handling for configuration and history files.
//!
//! Paths are handled as text. A path is read as a sequence of components in
//! the way `std::path::Path` reads a Unix path: an optional root, an optional
//! leading current-directory marker, then the non-empty segments between
//! separators, with `.` segments dropped. When `windows` is set, `\` is a
//! separator too.
use vstd::prelude::*;

use crate::text::{
    chars_eq, chars_of, lower_seq, lowercase, seq_starts_with, slice_chars, starts_with,
};

verus! {

broadcast use vstd::string::group_string_axioms;

/// One component of a path.
pub enum PathComponent {
    /// The leading separator of an absolute path.
    Root,
    /// A leading `.`.
    CurDir,
    /// Any other segment (including `..`).
    Normal(Vec<char>),
}

/// Mathematical form of a path component.
pub enum SpecComponent {
    Root,
    CurDir,
    Normal(Seq<char>),
}

impl View for PathComponent {
    type V = SpecComponent;

    open spec fn view(&self) -> SpecComponent {
        match self {
            PathComponent::Root => SpecComponent::Root,
            PathComponent::CurDir => SpecComponent::CurDir,
            PathComponent::Normal(v) => SpecComponent::Normal(v@),
        }
    }
}

pub open spec fn is_sep(c: char, windows: bool) -> bool {
    c == '/' || (windows && c == '\\')
}

/// The text between separators, from left to right (always at least one
/// segment; consecutive separators give empty segments).
pub open spec fn segments(s: Seq<char>, windows: bool) -> Seq<Seq<char>>
    decreases s.len(),
{
    if s.len() == 0 {
        seq![Seq::<char>::empty()]
    } else {
        let prev = segments(s.drop_last(), windows);
        if is_sep(s.last(), windows) {
            prev.push(Seq::<char>::empty())
        } else {
            prev.update(prev.len() - 1, prev.last().push(s.last()))
        }
    }
}

pub proof fn lemma_segments_nonempty(s: Seq<char>, windows: bool)
    ensures
        segments(s, windows).len() >= 1,
    decreases s.len(),
{
    if s.len() > 0 {
        lemma_segments_nonempty(s.drop_last(), windows);
    }
}

/// A segment that names something (not empty, not `.`).
pub open spec fn is_named_segment(seg: Seq<char>) -> bool {
    seg.len() > 0 && seg != seq!['.']
}

/// The components of a path.
pub open spec fn components(s: Seq<char>, windows: bool) -> Seq<SpecComponent> {
    let segs = segments(s, windows);
    let rooted = s.len() > 0 && is_sep(s[0], windows);
    let cur = !rooted && segs[0] == seq!['.'];
    let head: Seq<SpecComponent> = if rooted {
        seq![SpecComponent::Root]
    } else if cur {
        seq![SpecComponent::CurDir]
    } else {
        Seq::empty()
    };
    head + named_components(segs)
}

/// The named segments of `segs`, as components, in order.
pub open spec fn named_components(segs: Seq<Seq<char>>) -> Seq<SpecComponent>
    decreases segs.len(),
{
    if segs.len() == 0 {
        Seq::empty()
    } else if is_named_segment(segs.last()) {
        named_components(segs.drop_last()).push(SpecComponent::Normal(segs.last()))
    } else {
        named_components(segs.drop_last())
    }
}

/// `Path::starts_with`: `base` is a component-wise prefix of `path`.
pub open spec fn spec_path_starts_with(path: Seq<char>, base: Seq<char>, windows: bool) -> bool {
    let p = components(path, windows);
    let b = components(base, windows);
    b.len() <= p.len() && p.take(b.len() as int) == b
}

/// The last named component, unless the path ends in `..`.
pub open spec fn spec_file_name(s: Seq<char>, windows: bool) -> Option<Seq<char>> {
    let c = components(s, windows);
    if c.len() > 0 && c.last() is Normal && c.last()->Normal_0 != seq!['.', '.'] {
        Some(c.last()->Normal_0)
    } else {
        None
    }
}

/// Index of the last `.` in `name`, if any.
pub open spec fn last_dot(name: Seq<char>) -> Option<int> {
    if exists|i: int| 0 <= i < name.len() && name[i] == '.' {
        Some(
            choose|i: int|
                0 <= i < name.len() && name[i] == '.' && forall|j: int|
                    i < j < name.len() ==> name[j] != '.',
        )
    } else {
        None
    }
}

/// `Path::extension`: the text after the last `.` of the file name, unless
/// that `.` starts the name.
pub open spec fn spec_extension(s: Seq<char>, windows: bool) -> Option<Seq<char>> {
    match spec_file_name(s, windows) {
        None => None,
        Some(name) => match last_dot(name) {
            Some(i) => if i > 0 {
                Some(name.skip(i + 1))
            } else {
                None
            },
            None => None,
        },
    }
}

/// A Windows base that is only a drive, such as `C:`.
pub open spec fn is_bare_drive(base: Seq<char>) -> bool {
    base.len() == 2 && is_ascii_alpha(base[0]) && base[1] == ':'
}

/// An ASCII letter.
pub open spec fn is_ascii_alpha(c: char) -> bool {
    ('a' <= c && c <= 'z') || ('A' <= c && c <= 'Z')
}

/// `PathBuf::join` with a relative child: the child is appended after the
/// platform's separator (`\` on Windows, `/` elsewhere) unless the base is
/// empty, already ends with a separator, or on Windows is a bare drive.
/// Verbatim (`\\?\`) Windows bases get no special treatment.
pub open spec fn spec_join(base: Seq<char>, child: Seq<char>, windows: bool) -> Seq<char> {
    if base.len() == 0 || is_sep(base.last(), windows) || (windows && is_bare_drive(base)) {
        base + child
    } else if windows {
        base + seq!['\\'] + child
    } else {
        base + seq!['/'] + child
    }
}

// ---------------------------------------------------------------------------
// Implementation
// ---------------------------------------------------------------------------
fn is_separator(c: char, windows: bool) -> (r: bool)
    ensures
        r == is_sep(c, windows),
{
    c == '/' || (windows && c == '\\')
}

/// Splits `s` at every separator.
#[verifier::loop_isolation(false)]
pub fn split_segments(s: &[char], windows: bool) -> (out: Vec<Vec<char>>)
    ensures
        out@.map_values(|v: Vec<char>| v@) == segments(s@, windows),
{
    let mut out: Vec<Vec<char>> = Vec::new();
    out.push(Vec::new());
    let mut i: usize = 0;
    assert(s@.take(0) == Seq::<char>::empty());
    assert(out@.map_values(|v: Vec<char>| v@) =~= segments(s@.take(0), windows));
    while i < s.len()
        invariant
            i <= s.len(),
            out.len() >= 1,
            out@.map_values(|v: Vec<char>| v@) == segments(s@.take(i as int), windows),
        decreases s.len() - i,
    {
        let ghost before = out@.map_values(|v: Vec<char>| v@);
        let c = s[i];
        assert(s@.take(i + 1).drop_last() == s@.take(i as int));
        assert(s@.take(i + 1).last() == c);
        if is_separator(c, windows) {
            out.push(Vec::new());
            assert(out@.map_values(|v: Vec<char>| v@) =~= before.push(Seq::<char>::empty()));
        } else {
            let last = out.len() - 1;
            let mut seg = out.pop().unwrap();
            seg.push(c);
            out.push(seg);
            assert(out@.map_values(|v: Vec<char>| v@) =~= before.update(
                last as int,
                before.last().push(c),
            ));
        }
        i += 1;
    }
    assert(s@.take(s.len() as int) == s@);
    out
}

/// The components of the path text `s`.
#[verifier::loop_isolation(false)]
pub fn path_components(s: &[char], windows: bool) -> (out: Vec<PathComponent>)
    ensures
        out@.map_values(|c: PathComponent| c@) == components(s@, windows),
{
    let segs = split_segments(s, windows);
    let ghost ss = segments(s@, windows);
    proof {
        lemma_segments_nonempty(s@, windows);
    }
    assert(segs@.map_values(|v: Vec<char>| v@)[0] == segs@[0]@);
    let rooted = s.len() > 0 && is_separator(s[0], windows);
    let dot = chars_of(".");
    let cur = !rooted && chars_eq(&segs[0], &dot);
    proof {
        reveal_strlit(".");
        assert("."@ =~= seq!['.']);
    }
    assert(cur == (!rooted && ss[0] == seq!['.']));
    let mut out: Vec<PathComponent> = Vec::new();
    if rooted {
        out.push(PathComponent::Root);
    } else if cur {
        out.push(PathComponent::CurDir);
    }
    let ghost head = out@.map_values(|c: PathComponent| c@);
    let mut i: usize = 0;
    while i < segs.len()
        invariant
            i <= segs.len(),
            segs@.map_values(|v: Vec<char>| v@) == ss,
            out@.map_values(|c: PathComponent| c@) == head + named_components(
                ss.take(i as int),
            ),
        decreases segs.len() - i,
    {
        let ghost prev_out = out@.map_values(|c: PathComponent| c@);
        assert(ss.take(i + 1).drop_last() == ss.take(i as int));
        assert(ss[i as int] == segs@[i as int]@);
        let seg = &segs[i];
        let named = seg.len() > 0 && !chars_eq(seg, &dot);
        if named {
            let mut copy: Vec<char> = Vec::new();
            crate::text::extend_chars(&mut copy, seg);
            out.push(PathComponent::Normal(copy));
            assert(out@.map_values(|c: PathComponent| c@) =~= prev_out.push(
                SpecComponent::Normal(seg@),
            ));
            assert(ss.take(i + 1).last() == seg@);
            assert(is_named_segment(seg@));
            assert(named_components(ss.take(i + 1)) == named_components(ss.take(i as int)).push(
                SpecComponent::Normal(seg@)));
            assert(head + named_components(ss.take(i + 1)) =~= (head + named_components(
                ss.take(i as int),
            )).push(SpecComponent::Normal(seg@)));
        } else {
            assert(out@.map_values(|c: PathComponent| c@) == prev_out);
        }
        i += 1;
    }
    assert(ss.take(segs.len() as int) == ss);
    assert(head == (if rooted {
        seq![SpecComponent::Root]
    } else if cur {
        seq![SpecComponent::CurDir]
    } else {
        Seq::<SpecComponent>::empty()
    }));
    out
}

fn component_eq(a: &PathComponent, b: &PathComponent) -> (r: bool)
    ensures
        r == (a@ == b@),
{
    match (a, b) {
        (PathComponent::Root, PathComponent::Root) => true,
        (PathComponent::CurDir, PathComponent::CurDir) => true,
        (PathComponent::Normal(x), PathComponent::Normal(y)) => chars_eq(x, y),
        _ => false,
    }
}

/// Is `base` a component-wise prefix of `path` (`Path::starts_with`)?
#[verifier::loop_isolation(false)]
pub fn path_starts_with(path: &[char], base: &[char], windows: bool) -> (r: bool)
    ensures
        r == spec_path_starts_with(path@, base@, windows),
{
    let p = path_components(path, windows);
    let b = path_components(base, windows);
    let ghost pv = p@.map_values(|c: PathComponent| c@);
    let ghost bv = b@.map_values(|c: PathComponent| c@);
    assert(pv == components(path@, windows));
    assert(bv == components(base@, windows));
    if b.len() > p.len() {
        return false;
    }
    let mut i: usize = 0;
    while i < b.len()
        invariant
            i <= b.len() <= p.len(),
            pv == p@.map_values(|c: PathComponent| c@),
            bv == b@.map_values(|c: PathComponent| c@),
            forall|j: int| 0 <= j < i ==> pv[j] == bv[j],
        decreases b.len() - i,
    {
        if !component_eq(&p[i], &b[i]) {
            assert(pv[i as int] == p@[i as int]@);
            assert(bv[i as int] == b@[i as int]@);
            assert(pv.take(bv.len() as int)[i as int] != bv[i as int]);
            return false;
        }
        i += 1;
    }
    assert(pv.take(bv.len() as int) =~= bv);
    true
}

/// Are the two paths made of the same components (`Path == Path`)?
#[verifier::loop_isolation(false)]
pub fn path_eq(left: &[char], right: &[char], windows: bool) -> (r: bool)
    ensures
        r == (components(left@, windows) == components(right@, windows)),
{
    let a = path_components(left, windows);
    let b = path_components(right, windows);
    let ghost av = a@.map_values(|c: PathComponent| c@);
    let ghost bv = b@.map_values(|c: PathComponent| c@);
    assert(av == components(left@, windows));
    assert(bv == components(right@, windows));
    if a.len() != b.len() {
        assert(av.len() != bv.len());
        return false;
    }
    let mut i: usize = 0;
    while i < a.len()
        invariant
            i <= a.len(),
            a.len() == b.len(),
            av == a@.map_values(|c: PathComponent| c@),
            bv == b@.map_values(|c: PathComponent| c@),
            forall|j: int| 0 <= j < i ==> av[j] == bv[j],
        decreases a.len() - i,
    {
        if !component_eq(&a[i], &b[i]) {
            assert(av[i as int] == a@[i as int]@);
            assert(bv[i as int] == b@[i as int]@);
            return false;
        }
        i += 1;
    }
    assert(av =~= bv);
    true
}

/// The file name of a path (`Path::file_name`).
#[verifier::loop_isolation(false)]
pub fn file_name(path: &[char], windows: bool) -> (r: Option<Vec<char>>)
    ensures
        match (r, spec_file_name(path@, windows)) {
            (Some(v), Some(s)) => v@ == s,
            (None, None) => true,
            _ => false,
        },
{
    let comps = path_components(path, windows);
    let ghost cv = comps@.map_values(|c: PathComponent| c@);
    assert(cv == components(path@, windows));
    if comps.len() == 0 {
        return None;
    }
    let last = comps.len() - 1;
    assert(cv.last() == comps@[last as int]@);
    match &comps[last] {
        PathComponent::Normal(name) => {
            let dots = chars_of("..");
            proof {
                reveal_strlit("..");
                assert(".."@ =~= seq!['.', '.']);
            }
            if chars_eq(name, &dots) {
                None
            } else {
                Some(slice_chars(name, 0, name.len()))
            }
        },
        _ => None,
    }
}

/// The extension of a path (`Path::extension`).
#[verifier::loop_isolation(false)]
pub fn extension(path: &[char], windows: bool) -> (r: Option<Vec<char>>)
    ensures
        match (r, spec_extension(path@, windows)) {
            (Some(v), Some(s)) => v@ == s,
            (None, None) => true,
            _ => false,
        },
{
    let name = match file_name(path, windows) {
        None => return None,
        Some(name) => name,
    };
    let mut i: usize = name.len();
    while i > 0 && name[i - 1] != '.'
        invariant
            i <= name.len(),
            forall|j: int| i <= j < name.len() ==> name@[j] != '.',
        decreases i,
    {
        i -= 1;
    }
    if i == 0 {
        assert(last_dot(name@) is None);
        return None;
    }
    let d = i - 1;
    proof {
        let c = last_dot(name@)->0;
        assert(last_dot(name@) is Some);
        if c < d {
        }
        if c > d {
        }
        assert(c == d);
    }
    if d == 0 {
        None
    } else {
        Some(slice_chars(&name, d + 1, name.len()))
    }
}

/// Joins a relative child onto a base path, with the separator of the
/// platform that `windows` names.
pub fn join_path(base: &[char], child: &[char], windows: bool) -> (r: Vec<char>)
    ensures
        r@ == spec_join(base@, child@, windows),
{
    let mut out = slice_chars(base, 0, base.len());
    assert(base@.subrange(0, base.len() as int) == base@);
    let n = base.len();
    let bare_drive = windows && n == 2 && (('a' <= base[0] && base[0] <= 'z') || ('A' <= base[0]
        && base[0] <= 'Z')) && base[1] == ':';
    if n > 0 && !is_separator(base[n - 1], windows) && !bare_drive {
        if windows {
            out.push('\\');
        } else {
            out.push('/');
        }
    }
    crate::text::extend_chars(&mut out, child);
    out
}

/// ASCII-case-insensitive equality (`str::eq_ignore_ascii_case`).
pub fn eq_ignore_ascii_case(a: &[char], b: &[char]) -> (r: bool)
    ensures
        r == (lower_seq(a@) == lower_seq(b@)),
{
    let la = lowercase(a);
    let lb = lowercase(b);
    chars_eq(&la, &lb)
}

} // verus!
