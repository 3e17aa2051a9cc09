//! Offsets for input methods: the platform speaks of text positions in
//! UTF-16 code units, the editor in UTF-8 bytes.
use vstd::prelude::*;

use crate::lines::{char_width, utf8_len, utf8_width};
use crate::text::chars_of;

verus! {

/// Number of UTF-16 code units of `c` (`char::len_utf16`).
pub open spec fn utf16_width(c: char) -> nat {
    if (c as u32) < 0x10000 {
        1
    } else {
        2
    }
}

/// The UTF-8 offset reached by walking `s` until `offset` UTF-16 units have
/// been passed (or the text ends); a character is passed whole.
pub open spec fn utf8_offset_from_utf16(s: Seq<char>, offset: int) -> nat
    decreases s.len(),
{
    if s.len() == 0 || offset <= 0 {
        0
    } else {
        utf8_width(s[0]) + utf8_offset_from_utf16(s.drop_first(), offset - utf16_width(s[0]))
    }
}

/// The UTF-16 offset reached by walking `s` until `offset` UTF-8 bytes have
/// been passed (or the text ends); a character is passed whole.
pub open spec fn utf16_offset_from_utf8(s: Seq<char>, offset: int) -> nat
    decreases s.len(),
{
    if s.len() == 0 || offset <= 0 {
        0
    } else {
        utf16_width(s[0]) + utf16_offset_from_utf8(s.drop_first(), offset - utf8_width(s[0]))
    }
}

fn char_width_utf16(c: char) -> (n: usize)
    ensures
        n == utf16_width(c),
{
    if (c as u32) < 0x10000 {
        1
    } else {
        2
    }
}

/// Converts a UTF-16 offset into `text` to a UTF-8 offset.
pub fn utf16_offset_to_utf8(text: &str, offset: usize) -> (r: usize)
    requires
        utf8_len(text@) <= usize::MAX,
    ensures
        r == utf8_offset_from_utf16(text@, offset as int),
{
    let s = chars_of(text);
    let mut i: usize = 0;
    let mut utf8: usize = 0;
    let mut utf16: usize = 0;
    assert(s@.skip(0) =~= s@);
    while i < s.len() && utf16 < offset
        invariant
            i <= s.len(),
            s@ == text@,
            utf16 <= offset,
            utf8_len(text@) <= usize::MAX,
            utf8 == utf8_len(s@.take(i as int)),
            utf8_offset_from_utf16(s@, offset as int) == utf8 + utf8_offset_from_utf16(
                s@.skip(i as int),
                offset - utf16,
            ),
        decreases s.len() - i,
    {
        let c = s[i];
        proof {
            assert(s@.skip(i as int)[0] == c);
            assert(s@.skip(i as int).drop_first() =~= s@.skip(i + 1));
            assert(s@.take(i + 1).drop_last() =~= s@.take(i as int));
            assert(s@.take(i + 1).last() == c);
            crate::lines::lemma_utf8_len_prefix_mono(s@, i + 1, s@.len() as int);
            assert(s@.take(s@.len() as int) =~= s@);
        }
        let w16 = char_width_utf16(c);
        assert(utf8_offset_from_utf16(s@.skip(i as int), offset - utf16) == utf8_width(c)
            + utf8_offset_from_utf16(s@.skip(i + 1), offset - utf16 - w16));
        utf8 = utf8 + char_width(c);
        if w16 >= offset - utf16 {
            utf16 = offset;
            i += 1;
            proof {
                assert(utf8_offset_from_utf16(s@.skip(i as int), 0) == 0);
            }
        } else {
            utf16 = utf16 + w16;
            i += 1;
        }
    }
    proof {
        if i < s.len() {
            assert(utf16 == offset);
        } else {
            assert(s@.skip(i as int).len() == 0);
        }
    }
    utf8
}

/// Converts a UTF-8 offset into `text` to a UTF-16 offset.
pub fn utf8_offset_to_utf16(text: &str, offset: usize) -> (r: usize)
    requires
        utf8_len(text@) <= usize::MAX,
    ensures
        r == utf16_offset_from_utf8(text@, offset as int),
{
    let s = chars_of(text);
    let mut i: usize = 0;
    let mut utf8: usize = 0;
    let mut utf16: usize = 0;
    assert(s@.skip(0) =~= s@);
    while i < s.len() && utf8 < offset
        invariant
            i <= s.len(),
            s@ == text@,
            utf8 <= offset,
            utf16 <= utf8_len(s@.take(i as int)),
            utf8_len(text@) <= usize::MAX,
            utf16_offset_from_utf8(s@, offset as int) == utf16 + utf16_offset_from_utf8(
                s@.skip(i as int),
                offset - utf8,
            ),
        decreases s.len() - i,
    {
        let c = s[i];
        proof {
            assert(s@.skip(i as int)[0] == c);
            assert(s@.skip(i as int).drop_first() =~= s@.skip(i + 1));
        }
        proof {
            assert(s@.take(i + 1).drop_last() =~= s@.take(i as int));
            assert(s@.take(i + 1).last() == c);
            crate::lines::lemma_utf8_len_prefix_mono(s@, i + 1, s@.len() as int);
            assert(s@.take(s@.len() as int) =~= s@);
        }
        let w8 = char_width(c);
        assert(utf16_offset_from_utf8(s@.skip(i as int), offset - utf8) == utf16_width(c)
            + utf16_offset_from_utf8(s@.skip(i + 1), offset - utf8 - w8));
        utf16 = utf16 + char_width_utf16(c);
        if w8 >= offset - utf8 {
            utf8 = offset;
            i += 1;
            proof {
                assert(utf16_offset_from_utf8(s@.skip(i as int), 0) == 0);
            }
        } else {
            utf8 = utf8 + w8;
            i += 1;
        }
    }
    proof {
        if i < s.len() {
            assert(utf8 == offset);
        } else {
            assert(s@.skip(i as int).len() == 0);
        }
    }
    utf16
}

/// Converts a UTF-16 range of `text` to a UTF-8 range.
pub fn utf16_range_to_utf8_in(text: &str, start: usize, end: usize) -> (r: (usize, usize))
    requires
        utf8_len(text@) <= usize::MAX,
    ensures
        r == (
            utf8_offset_from_utf16(text@, start as int) as usize,
            utf8_offset_from_utf16(text@, end as int) as usize,
        ),
{
    (utf16_offset_to_utf8(text, start), utf16_offset_to_utf8(text, end))
}

/// Converts a UTF-8 range of `text` to a UTF-16 range.
pub fn utf8_range_to_utf16_in(text: &str, start: usize, end: usize) -> (r: (usize, usize))
    requires
        utf8_len(text@) <= usize::MAX,
    ensures
        r == (
            utf16_offset_from_utf8(text@, start as int) as usize,
            utf16_offset_from_utf8(text@, end as int) as usize,
        ),
{
    (utf8_offset_to_utf16(text, start), utf8_offset_to_utf16(text, end))
}

/// Number of UTF-16 code units of `s`.
pub open spec fn utf16_len(s: Seq<char>) -> nat
    decreases s.len(),
{
    if s.len() == 0 {
        0
    } else {
        utf16_width(s[0]) + utf16_len(s.drop_first())
    }
}

proof fn lemma_utf8_len_first(s: Seq<char>)
    requires
        s.len() > 0,
    ensures
        utf8_len(s) == utf8_width(s[0]) + utf8_len(s.drop_first()),
    decreases s.len(),
{
    if s.len() == 1 {
        assert(s.drop_last().len() == 0);
        assert(s.drop_first().len() == 0);
        assert(utf8_len(s.drop_last()) == 0);
        assert(utf8_len(s.drop_first()) == 0);
        assert(s.last() == s[0]);
    } else {
        let d = s.drop_last();
        lemma_utf8_len_first(d);
        assert(d[0] == s[0]);
        assert(d.drop_first() =~= s.drop_first().drop_last());
        assert(s.drop_first().last() == s.last());
        assert(utf8_len(s.drop_first()) == utf8_len(s.drop_first().drop_last()) + utf8_width(
            s.drop_first().last(),
        ));
    }
}

/// Offsets at character boundaries convert exactly: the boundary after the
/// first `k` characters has the same place in UTF-8 and in UTF-16, and
/// converting there and back gives the offset back.
pub proof fn law_boundaries_convert_exactly(s: Seq<char>, k: int)
    requires
        0 <= k <= s.len(),
    ensures
        utf8_offset_from_utf16(s, utf16_len(s.take(k)) as int) == utf8_len(s.take(k)),
        utf16_offset_from_utf8(s, utf8_len(s.take(k)) as int) == utf16_len(s.take(k)),
    decreases k,
{
    if k == 0 {
        assert(s.take(0).len() == 0);
        assert(utf8_len(s.take(0)) == 0);
    } else {
        let t = s.take(k);
        lemma_utf8_len_first(t);
        assert(t[0] == s[0]);
        assert(t.drop_first() =~= s.drop_first().take(k - 1));
        law_boundaries_convert_exactly(s.drop_first(), k - 1);
    }
}

} // verus!
