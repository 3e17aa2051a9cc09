//! Selections that span several rendered blocks.
//!
//! An endpoint is a block, by its position among the visible blocks, and an
//! offset into the block's visible text, already clamped to that text. A
//! selection runs from its anchor (where the drag started) to its focus;
//! normalizing puts the earlier endpoint first.
use vstd::prelude::*;

verus! {

/// A position in a visible block: the block's index and an offset in it.
#[derive(Clone, Copy, PartialEq, Eq, Structural, Debug)]
pub struct SelectionEndpoint {
    pub index: usize,
    pub offset: usize,
}

/// A selection with its endpoints in document order, and whether the focus
/// came first.
#[derive(Clone, Copy, PartialEq, Eq, Structural, Debug)]
pub struct NormalizedCrossBlockSelection {
    pub start: SelectionEndpoint,
    pub end: SelectionEndpoint,
    pub reversed: bool,
}

/// `a` comes before `b` in the document.
pub open spec fn endpoint_before(a: SelectionEndpoint, b: SelectionEndpoint) -> bool {
    a.index < b.index || (a.index == b.index && a.offset < b.offset)
}

/// The selection from `anchor` to `focus` in document order; nothing when
/// the two endpoints coincide.
pub open spec fn spec_normalize_selection(anchor: SelectionEndpoint, focus: SelectionEndpoint) -> Option<NormalizedCrossBlockSelection> {
    let reversed = endpoint_before(focus, anchor);
    let (start, end) = if reversed {
        (focus, anchor)
    } else {
        (anchor, focus)
    };
    if start == end {
        None
    } else {
        Some(NormalizedCrossBlockSelection { start, end, reversed })
    }
}

/// Puts the endpoints of a selection in document order.
pub fn normalize_cross_block_selection(anchor: SelectionEndpoint, focus: SelectionEndpoint) -> (r: Option<NormalizedCrossBlockSelection>)
    ensures
        r == spec_normalize_selection(anchor, focus),
{
    let reversed = focus.index < anchor.index || (focus.index == anchor.index && focus.offset
        < anchor.offset);
    let (start, end) = if reversed {
        (focus, anchor)
    } else {
        (anchor, focus)
    };
    if start.index == end.index && start.offset == end.offset {
        return None;
    }
    Some(NormalizedCrossBlockSelection { start, end, reversed })
}

/// Whether a selection selects nothing: an endpoint whose block is not
/// visible (`None`), or two equal endpoints.
pub fn cross_block_selection_is_empty(anchor_index: Option<usize>, anchor_offset: usize, focus_index: Option<usize>, focus_offset: usize) -> (r: bool)
    ensures
        r == match (anchor_index, focus_index) {
            (Some(a), Some(f)) => a == f && anchor_offset == focus_offset,
            _ => true,
        },
{
    match (anchor_index, focus_index) {
        (Some(a), Some(f)) => a == f && anchor_offset == focus_offset,
        _ => true,
    }
}

/// The part of block `index`, whose visible text has `len` characters,
/// that the selection covers; nothing when it covers no character.
pub open spec fn spec_block_selection_range(s: NormalizedCrossBlockSelection, index: int, len: int) -> Option<(int, int)> {
    match spec_block_span(s, index, len) {
        Some((a, b)) => if a < b {
            Some((a, b))
        } else {
            None
        },
        None => None,
    }
}

/// The span of block `index` between the selection's endpoints, with the
/// offsets clamped to the block's text, possibly empty.
pub open spec fn spec_block_span(s: NormalizedCrossBlockSelection, index: int, len: int) -> Option<(int, int)> {
    let start = if s.start.offset < len {
        s.start.offset as int
    } else {
        len
    };
    let end = if s.end.offset < len {
        s.end.offset as int
    } else {
        len
    };
    if index < s.start.index || index > s.end.index {
        None
    } else if s.start.index == s.end.index {
        Some((start, end))
    } else if index == s.start.index {
        Some((start, len))
    } else if index == s.end.index {
        Some((0, end))
    } else {
        Some((0, len))
    }
}

/// Which characters of block `index` to highlight for the selection;
/// nothing when none is.
pub fn block_selection_range(selection: &NormalizedCrossBlockSelection, index: usize, len: usize) -> (r: Option<(usize, usize)>)
    ensures
        match (r, spec_block_selection_range(*selection, index as int, len as int)) {
            (Some((a, b)), Some((sa, sb))) => a == sa && b == sb,
            (None, None) => true,
            _ => false,
        },
{
    let start = if selection.start.offset < len {
        selection.start.offset
    } else {
        len
    };
    let end = if selection.end.offset < len {
        selection.end.offset
    } else {
        len
    };
    let span = if index < selection.start.index || index > selection.end.index {
        None
    } else if selection.start.index == selection.end.index {
        Some((start, end))
    } else if index == selection.start.index {
        Some((start, len))
    } else if index == selection.end.index {
        Some((0, end))
    } else {
        Some((0, len))
    };
    match span {
        Some((a, b)) => if a < b {
            Some((a, b))
        } else {
            None
        },
        None => None,
    }
}

/// A normalized selection starts before it ends.
pub proof fn law_normalized_selection_is_ordered(anchor: SelectionEndpoint, focus: SelectionEndpoint)
    ensures
        spec_normalize_selection(anchor, focus) matches Some(s) ==> endpoint_before(s.start, s.end),
{
}

/// Swapping anchor and focus selects the same range, with the direction
/// flipped.
pub proof fn law_selection_direction_does_not_matter(anchor: SelectionEndpoint, focus: SelectionEndpoint)
    ensures
        match (spec_normalize_selection(anchor, focus), spec_normalize_selection(focus, anchor)) {
            (Some(a), Some(b)) => a.start == b.start && a.end == b.end && a.reversed != b.reversed,
            (None, None) => true,
            _ => false,
        },
{
}

/// The character at offset `k` of block `index` is at or after endpoint `e`.
pub open spec fn at_or_after(index: int, k: int, e: SelectionEndpoint) -> bool {
    index > e.index || (index == e.index && k >= e.offset)
}

/// The character at offset `k` of block `index` is before endpoint `e`.
pub open spec fn before_endpoint(index: int, k: int, e: SelectionEndpoint) -> bool {
    index < e.index || (index == e.index && k < e.offset)
}

/// Exactly the characters of a block that lie between the selection's
/// start (included) and end (excluded) are highlighted, as one non-empty
/// range within the block's text; a block with no such character gets no
/// range.
pub proof fn law_highlight_is_between_endpoints(s: NormalizedCrossBlockSelection, index: int, len: int)
    requires
        len >= 0,
    ensures
        spec_block_selection_range(s, index, len) matches Some((a, b)) ==> 0 <= a < b <= len,
        forall|k: int|
            0 <= k < len ==> ((spec_block_selection_range(s, index, len) matches Some((a, b))
                && a <= k < b) <==> (at_or_after(index, k, s.start) && before_endpoint(
                index,
                k,
                s.end,
            ))),
{
}

/// The highlighted part of a block lies within the block's text and does
/// not run backwards.
pub proof fn law_block_range_is_within_text(selection: NormalizedCrossBlockSelection, index: int, len: int)
    requires
        endpoint_before(selection.start, selection.end),
        len >= 0,
    ensures
        spec_block_selection_range(selection, index, len) matches Some((a, b)) ==> 0 <= a <= b
            <= len,
{
}

} // verus!
