//! Moving the focus between the cells of a table, and what the editor does
//! when a cell reports an event.
//!
//! Row 0 is the header row; body rows follow. Moving sideways walks the
//! cells in reading order and wraps from the end of one row to the start
//! of the next; moving up or down keeps the column.
use vstd::prelude::*;

verus! {

/// A cell of a table: its row (0 for the header) and column.
#[derive(Clone, Copy, PartialEq, Eq, Structural, Debug)]
pub struct TableCellPosition {
    pub row: usize,
    pub column: usize,
}

/// The cell `delta` steps away in reading order, in a table of `columns`
/// columns and `body_rows` rows under the header; nothing when the step
/// leaves the table.
pub open spec fn spec_horizontal_neighbor(position: TableCellPosition, delta: int, columns: nat, body_rows: nat) -> Option<TableCellPosition> {
    let next = position.row * columns + position.column + delta;
    if columns == 0 || next < 0 || next >= (1 + body_rows) * columns {
        None
    } else {
        Some(TableCellPosition { row: (next / columns as int) as usize, column: (next % columns as int) as usize })
    }
}

/// The cell `delta` rows away in the same column (the last column when
/// the table is narrower), in a table of `columns` columns and `body_rows`
/// rows under the header; nothing when the step leaves the table.
pub open spec fn spec_vertical_neighbor(position: TableCellPosition, delta: int, columns: nat, body_rows: nat) -> Option<TableCellPosition> {
    let next_row = position.row + delta;
    if next_row < 0 || next_row > body_rows {
        None
    } else {
        let last_column: int = if columns == 0 {
            0
        } else {
            columns - 1
        };
        Some(
            TableCellPosition {
                row: next_row as usize,
                column: if position.column < last_column {
                    position.column
                } else {
                    last_column as usize
                },
            },
        )
    }
}

/// `|delta|`, as `i32::unsigned_abs` gives it.
fn magnitude(delta: i32) -> (r: usize)
    ensures
        r == (if delta < 0 {
            -delta
        } else {
            delta as int
        }),
{
    if delta < 0 {
        if delta == i32::MIN {
            2147483648usize
        } else {
            (-delta) as usize
        }
    } else {
        delta as usize
    }
}

/// Where a sideways move of `delta` cells leads.
pub fn horizontal_neighbor_position(position: TableCellPosition, delta: i32, columns: usize, body_rows: usize) -> (r: Option<TableCellPosition>)
    requires
        (1 + body_rows) * columns <= usize::MAX,
        position.row * columns + position.column <= usize::MAX,
    ensures
        r == spec_horizontal_neighbor(position, delta as int, columns as nat, body_rows as nat),
{
    if columns == 0 {
        return None;
    }
    assert(position.row * columns <= usize::MAX) by (nonlinear_arith)
        requires
            position.row * columns + position.column <= usize::MAX,
            position.column >= 0,
    ;
    let linear = position.row * columns + position.column;
    let step = magnitude(delta);
    let next = if delta < 0 {
        if step > linear {
            return None;
        }
        linear - step
    } else {
        if step > usize::MAX - linear {
            return None;
        }
        linear + step
    };
    assert((1 + body_rows) * columns == columns + body_rows * columns) by (nonlinear_arith);
    let total = columns + body_rows * columns;
    if next >= total {
        return None;
    }
    Some(TableCellPosition { row: next / columns, column: next % columns })
}

/// Where a move of `delta` rows leads.
pub fn vertical_neighbor_position(position: TableCellPosition, delta: i32, columns: usize, body_rows: usize) -> (r: Option<TableCellPosition>)
    ensures
        r == spec_vertical_neighbor(position, delta as int, columns as nat, body_rows as nat),
{
    let step = magnitude(delta);
    let next_row = if delta < 0 {
        if step > position.row {
            return None;
        }
        position.row - step
    } else {
        if step > usize::MAX - position.row {
            return None;
        }
        position.row + step
    };
    if next_row > body_rows {
        return None;
    }
    let last_column = if columns == 0 {
        0
    } else {
        columns - 1
    };
    let column = if position.column < last_column {
        position.column
    } else {
        last_column
    };
    Some(TableCellPosition { row: next_row, column })
}

/// A sideways move that stays in the table is undone by the opposite
/// move.
pub proof fn law_horizontal_move_round_trip(position: TableCellPosition, delta: int, columns: nat, body_rows: nat)
    requires
        position.column < columns,
        position.row <= body_rows,
        (1 + body_rows) * columns <= usize::MAX,
        spec_horizontal_neighbor(position, delta, columns, body_rows) is Some,
    ensures
        spec_horizontal_neighbor(
            spec_horizontal_neighbor(position, delta, columns, body_rows)->0,
            -delta,
            columns,
            body_rows,
        ) == Some(position),
{
    let c = columns as int;
    let linear = position.row * c + position.column;
    let next = linear + delta;
    let q = spec_horizontal_neighbor(position, delta, columns, body_rows)->0;
    vstd::arithmetic::div_mod::lemma_fundamental_div_mod(next, c);
    assert(0 <= next % c < c) by {
        vstd::arithmetic::div_mod::lemma_mod_bound(next, c);
    }
    assert(next / c >= 0) by {
        vstd::arithmetic::div_mod::lemma_div_pos_is_pos(next, c);
    }
    assert(next / c <= next) by {
        vstd::arithmetic::div_mod::lemma_div_is_ordered_by_denominator(next, 1, c);
    }
    assert(q.row == next / c);
    assert(q.column == next % c);
    assert(q.row * c + q.column == next) by (nonlinear_arith)
        requires
            next == c * (next / c) + next % c,
            q.row == next / c,
            q.column == next % c,
    ;
    assert(linear < (1 + body_rows) * c) by (nonlinear_arith)
        requires
            position.row <= body_rows,
            position.column < c,
            linear == position.row * c + position.column,
    ;
    assert(linear >= 0) by (nonlinear_arith)
        requires
            linear == position.row * c + position.column,
            position.row >= 0,
            c >= 0,
            position.column >= 0,
    ;
    vstd::arithmetic::div_mod::lemma_fundamental_div_mod_converse(
        linear,
        c,
        position.row as int,
        position.column as int,
    );
}

// ---------------------------------------------------------------------------
// Cell events
// ---------------------------------------------------------------------------
/// What a table cell reports to the editor. Payloads that the editor only
/// passes on (link targets, footnote identifiers) stay with the caller.
#[derive(Clone, Copy, PartialEq, Eq, Structural, Debug)]
pub enum TableCellEvent {
    /// The cell's text changed.
    Changed,
    RequestOpenLink,
    RequestJumpToFootnoteDefinition,
    RequestJumpToFootnoteBackref,
    RequestTableCellMoveHorizontal { delta: i32 },
    RequestTableCellMoveVertical { delta: i32 },
    RequestFocus,
    RequestFocusPrev,
    RequestFocusNext,
    /// Any other editing request that ends a selection across blocks
    /// (a line break, a merge, an indent, a paste, a deletion, ...).
    OtherEdit,
    /// Any other event.
    Other,
}

/// What the editor does in response.
#[derive(Clone, Copy, PartialEq, Eq, Structural, Debug)]
pub enum TableCellAction {
    /// Write the cells back into the table, refresh images, mark the
    /// document dirty, scroll to the cell and close the undo step.
    SyncTable,
    OpenLinkPrompt,
    JumpToFootnoteDefinition,
    JumpToFootnoteBackref,
    /// Move the focus to another cell.
    FocusCell(TableCellPosition),
    /// Close menus and table previews and focus this cell.
    FocusThisCell,
    Nothing,
}

/// Whether the event ends a selection across blocks, and the action.
#[derive(Clone, Copy, PartialEq, Eq, Structural, Debug)]
pub struct TableCellReaction {
    pub clear_cross_block_selection: bool,
    pub action: TableCellAction,
}

/// Focus the cell at `target`, or do nothing when there is none.
pub open spec fn focus_or_nothing(target: Option<TableCellPosition>) -> TableCellAction {
    match target {
        Some(p) => TableCellAction::FocusCell(p),
        None => TableCellAction::Nothing,
    }
}

/// The editor's response to `event` from the cell at `position` of a table
/// with `columns` columns and `body_rows` rows under the header.
pub open spec fn spec_table_cell_reaction(event: TableCellEvent, position: TableCellPosition, columns: nat, body_rows: nat) -> TableCellReaction {
    TableCellReaction {
        clear_cross_block_selection: event is Changed || event is OtherEdit,
        action: match event {
            TableCellEvent::Changed => TableCellAction::SyncTable,
            TableCellEvent::RequestOpenLink => TableCellAction::OpenLinkPrompt,
            TableCellEvent::RequestJumpToFootnoteDefinition => TableCellAction::JumpToFootnoteDefinition,
            TableCellEvent::RequestJumpToFootnoteBackref => TableCellAction::JumpToFootnoteBackref,
            TableCellEvent::RequestTableCellMoveHorizontal { delta } => focus_or_nothing(
                spec_horizontal_neighbor(position, delta as int, columns, body_rows),
            ),
            TableCellEvent::RequestTableCellMoveVertical { delta } => focus_or_nothing(
                spec_vertical_neighbor(position, delta as int, columns, body_rows),
            ),
            TableCellEvent::RequestFocus => TableCellAction::FocusThisCell,
            TableCellEvent::RequestFocusPrev => focus_or_nothing(
                spec_vertical_neighbor(position, -1, columns, body_rows),
            ),
            TableCellEvent::RequestFocusNext => focus_or_nothing(
                spec_vertical_neighbor(position, 1, columns, body_rows),
            ),
            _ => TableCellAction::Nothing,
        },
    }
}

/// Decides how the editor reacts to an event from a table cell.
pub fn on_table_cell_event(event: TableCellEvent, position: TableCellPosition, columns: usize, body_rows: usize) -> (r: TableCellReaction)
    requires
        event is RequestTableCellMoveHorizontal ==> (1 + body_rows) * columns <= usize::MAX
            && position.row * columns + position.column <= usize::MAX,
    ensures
        r == spec_table_cell_reaction(event, position, columns as nat, body_rows as nat),
{
    let clear = match event {
        TableCellEvent::Changed | TableCellEvent::OtherEdit => true,
        _ => false,
    };
    let action = match event {
        TableCellEvent::Changed => TableCellAction::SyncTable,
        TableCellEvent::RequestOpenLink => TableCellAction::OpenLinkPrompt,
        TableCellEvent::RequestJumpToFootnoteDefinition => TableCellAction::JumpToFootnoteDefinition,
        TableCellEvent::RequestJumpToFootnoteBackref => TableCellAction::JumpToFootnoteBackref,
        TableCellEvent::RequestTableCellMoveHorizontal { delta } => {
            match horizontal_neighbor_position(position, delta, columns, body_rows) {
                Some(p) => TableCellAction::FocusCell(p),
                None => TableCellAction::Nothing,
            }
        },
        TableCellEvent::RequestTableCellMoveVertical { delta } => {
            match vertical_neighbor_position(position, delta, columns, body_rows) {
                Some(p) => TableCellAction::FocusCell(p),
                None => TableCellAction::Nothing,
            }
        },
        TableCellEvent::RequestFocus => TableCellAction::FocusThisCell,
        TableCellEvent::RequestFocusPrev => {
            match vertical_neighbor_position(position, -1, columns, body_rows) {
                Some(p) => TableCellAction::FocusCell(p),
                None => TableCellAction::Nothing,
            }
        },
        TableCellEvent::RequestFocusNext => {
            match vertical_neighbor_position(position, 1, columns, body_rows) {
                Some(p) => TableCellAction::FocusCell(p),
                None => TableCellAction::Nothing,
            }
        },
        _ => TableCellAction::Nothing,
    };
    TableCellReaction { clear_cross_block_selection: clear, action }
}

/// A vertical move of `delta` rows focuses the cell `delta` rows away in
/// the same column (the last column when the cell lies beyond it) exactly
/// when that row exists, and does nothing otherwise.
pub proof fn law_vertical_move_focuses_the_cell_below_or_above(position: TableCellPosition, delta: i32, columns: usize, body_rows: usize)
    ensures
        ({
            let act = spec_table_cell_reaction(
                TableCellEvent::RequestTableCellMoveVertical { delta },
                position,
                columns as nat,
                body_rows as nat,
            ).action;
            &&& (act is FocusCell <==> 0 <= position.row + delta <= body_rows)
            &&& (!(act is FocusCell) ==> act == TableCellAction::Nothing)
            &&& (act matches TableCellAction::FocusCell(p) ==> {
                &&& p.row == position.row + delta
                &&& p.column <= position.column
                &&& (position.column < columns ==> p.column == position.column)
                &&& (columns > 0 ==> p.column < columns)
                &&& (columns > 0 && position.column >= columns ==> p.column == columns - 1)
            })
        }),
{
}

/// Focusing the previous or next cell is a vertical move of one row up or
/// down.
pub proof fn law_focus_prev_next_move_one_row(position: TableCellPosition, columns: usize, body_rows: usize)
    ensures
        spec_table_cell_reaction(TableCellEvent::RequestFocusPrev, position, columns as nat, body_rows as nat).action
            == spec_table_cell_reaction(
            TableCellEvent::RequestTableCellMoveVertical { delta: -1i32 },
            position,
            columns as nat,
            body_rows as nat,
        ).action,
        spec_table_cell_reaction(TableCellEvent::RequestFocusNext, position, columns as nat, body_rows as nat).action
            == spec_table_cell_reaction(
            TableCellEvent::RequestTableCellMoveVertical { delta: 1i32 },
            position,
            columns as nat,
            body_rows as nat,
        ).action,
{
}

/// A sideways move of `delta` cells focuses the cell `delta` places away in
/// reading order (row by row, left to right) exactly when that cell lies in
/// the table, and does nothing otherwise.
pub proof fn law_horizontal_move_walks_reading_order(position: TableCellPosition, delta: i32, columns: usize, body_rows: usize)
    requires
        position.column < columns,
    ensures
        ({
            let act = spec_table_cell_reaction(
                TableCellEvent::RequestTableCellMoveHorizontal { delta },
                position,
                columns as nat,
                body_rows as nat,
            ).action;
            let target = position.row * columns + position.column + delta;
            &&& (act is FocusCell <==> 0 <= target < (1 + body_rows) * columns)
            &&& (!(act is FocusCell) ==> act == TableCellAction::Nothing)
            &&& (act matches TableCellAction::FocusCell(p) ==> p.column < columns && p.row * columns
                + p.column == target && p.row <= body_rows)
        }),
{
    let target = position.row * columns + position.column + delta;
    let c = columns as int;
    if 0 <= target < (1 + body_rows) * columns {
        vstd::arithmetic::div_mod::lemma_fundamental_div_mod(target, c);
        vstd::arithmetic::div_mod::lemma_mod_pos_bound(target, c);
        let q = target / c;
        assert(0 <= q <= body_rows) by (nonlinear_arith)
            requires
                target == c * q + target % c,
                0 <= target % c < c,
                0 <= target < (1 + body_rows) * c,
                c > 0,
        ;
        assert(q * c == c * q) by (nonlinear_arith);
    }
}

} // verus!
