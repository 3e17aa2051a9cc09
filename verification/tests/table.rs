use velotype::table::{
    horizontal_neighbor_position, on_table_cell_event, vertical_neighbor_position, TableCellAction,
    TableCellEvent, TableCellPosition,
};

fn at(row: usize, column: usize) -> TableCellPosition {
    TableCellPosition { row, column }
}

#[test]
fn sideways_moves_wrap_between_rows() {
    assert_eq!(horizontal_neighbor_position(at(0, 2), 1, 3, 2), Some(at(1, 0)));
    assert_eq!(horizontal_neighbor_position(at(1, 0), -1, 3, 2), Some(at(0, 2)));
    assert_eq!(horizontal_neighbor_position(at(0, 0), -1, 3, 2), None);
    assert_eq!(horizontal_neighbor_position(at(2, 2), 1, 3, 2), None);
    assert_eq!(horizontal_neighbor_position(at(0, 0), 1, 0, 2), None);
}

#[test]
fn vertical_moves_keep_the_column() {
    assert_eq!(vertical_neighbor_position(at(0, 1), 1, 3, 2), Some(at(1, 1)));
    assert_eq!(vertical_neighbor_position(at(2, 1), 1, 3, 2), None);
    assert_eq!(vertical_neighbor_position(at(0, 1), -1, 3, 2), None);
    assert_eq!(vertical_neighbor_position(at(1, 5), -1, 3, 2), Some(at(0, 2)));
    assert_eq!(vertical_neighbor_position(at(1, 0), i32::MIN, 3, 2), None);
}

#[test]
fn sideways_move_and_back_returns_to_the_cell() {
    let start = at(1, 2);
    let there = horizontal_neighbor_position(start, 4, 3, 3).unwrap();
    assert_eq!(there, at(3, 0));
    assert_eq!(horizontal_neighbor_position(there, -4, 3, 3), Some(start));
}

#[test]
fn table_cell_events_map_to_actions() {
    let r = on_table_cell_event(TableCellEvent::Changed, at(0, 0), 2, 1);
    assert!(r.clear_cross_block_selection);
    assert_eq!(r.action, TableCellAction::SyncTable);
    let r = on_table_cell_event(TableCellEvent::RequestFocusNext, at(0, 1), 2, 1);
    assert!(!r.clear_cross_block_selection);
    assert_eq!(r.action, TableCellAction::FocusCell(at(1, 1)));
    let r = on_table_cell_event(TableCellEvent::RequestFocusPrev, at(0, 1), 2, 1);
    assert_eq!(r.action, TableCellAction::Nothing);
    let r = on_table_cell_event(
        TableCellEvent::RequestTableCellMoveHorizontal { delta: 1 },
        at(0, 1),
        2,
        1,
    );
    assert_eq!(r.action, TableCellAction::FocusCell(at(1, 0)));
    let r = on_table_cell_event(TableCellEvent::OtherEdit, at(0, 1), 2, 1);
    assert!(r.clear_cross_block_selection);
    assert_eq!(r.action, TableCellAction::Nothing);
    let r = on_table_cell_event(TableCellEvent::RequestFocus, at(0, 1), 2, 1);
    assert_eq!(r.action, TableCellAction::FocusThisCell);
}

#[test]
fn vertical_focus_works_in_tables_too_large_to_number_cells() {
    let r = on_table_cell_event(
        TableCellEvent::RequestFocusNext,
        at(usize::MAX - 1, 5),
        usize::MAX,
        usize::MAX,
    );
    assert_eq!(r.action, TableCellAction::FocusCell(at(usize::MAX, 5)));
}
