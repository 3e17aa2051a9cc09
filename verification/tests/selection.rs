use velotype::selection::{
    block_selection_range, cross_block_selection_is_empty, normalize_cross_block_selection,
    NormalizedCrossBlockSelection, SelectionEndpoint,
};

fn at(index: usize, offset: usize) -> SelectionEndpoint {
    SelectionEndpoint { index, offset }
}

#[test]
fn selections_are_put_in_document_order() {
    let s = normalize_cross_block_selection(at(3, 1), at(1, 4)).unwrap();
    assert_eq!(s.start, at(1, 4));
    assert_eq!(s.end, at(3, 1));
    assert!(s.reversed);
    let t = normalize_cross_block_selection(at(1, 4), at(3, 1)).unwrap();
    assert_eq!((t.start, t.end), (s.start, s.end));
    assert!(!t.reversed);
    assert_eq!(normalize_cross_block_selection(at(2, 2), at(2, 2)), None);
}

#[test]
fn empty_selections() {
    assert!(cross_block_selection_is_empty(None, 0, Some(1), 0));
    assert!(cross_block_selection_is_empty(Some(1), 2, Some(1), 2));
    assert!(!cross_block_selection_is_empty(Some(1), 2, Some(1), 3));
}

#[test]
fn highlighted_ranges_per_block() {
    let s = NormalizedCrossBlockSelection { start: at(1, 2), end: at(3, 4), reversed: false };
    assert_eq!(block_selection_range(&s, 0, 5), None);
    assert_eq!(block_selection_range(&s, 1, 5), Some((2, 5)));
    assert_eq!(block_selection_range(&s, 2, 7), Some((0, 7)));
    assert_eq!(block_selection_range(&s, 3, 3), Some((0, 3)));
    assert_eq!(block_selection_range(&s, 4, 3), None);
    let one = NormalizedCrossBlockSelection { start: at(2, 1), end: at(2, 9), reversed: true };
    assert_eq!(block_selection_range(&one, 2, 5), Some((1, 5)));
}
