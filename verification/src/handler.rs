//! What a key does: for each key that the editor handles, the change to the
//! document and the work for the host that the key calls for.

use vstd::prelude::*;
use vstd::string::StringExecFns;
use crate::builder::EditorBuilder;
use crate::codec::{json_of_row, row_to_json};
use crate::dom::{
    cell_id, get_cell_id, get_row_id, push_action, push_queued, queued, row_id, Action, Effect,
};
use crate::numbers::{decimal, push_decimal};
use crate::offsets::{
    chars_before, insert_text, inserted, is_boundary, lemma_byte_len_concat, remove_char,
    removed, split_text,
};
use crate::state::{can_merge, can_split, is_cell, Caret, Grid};
use crate::strings::{byte_len, text_len};

verus! {

/// The caret that a key pressed in cell `(row, col)` acts on: the caret of
/// the editor, or, where no cell has the focus, the start of that cell.
pub open spec fn acting_caret(caret: Option<Caret>, row: usize, col: usize) -> Caret {
    match caret {
        Some(at) => at,
        None => (row, col, 0usize),
    }
}

/// The text of cell `(row, col)` of `grid`, or the empty text where the grid
/// has no such cell.
pub open spec fn text_at(grid: Grid, row: int, col: int) -> Seq<char> {
    if is_cell(grid, row, col) {
        grid[row][col]
    } else {
        Seq::empty()
    }
}

/// The text that the editor takes for the text of the cell with the focus:
/// the text of the caret's cell, or the word `error` where no cell of the
/// grid has the focus.
pub open spec fn current_text(grid: Grid, caret: Option<Caret>) -> Seq<char> {
    match caret {
        Some((row, col, _)) => if is_cell(grid, row as int, col as int) {
            grid[row as int][col as int]
        } else {
            "error"@
        },
        None => "error"@,
    }
}

/// The text of cell `(row, col)`, or the empty text where there is no such
/// cell.
fn cell_text_at(grid: &Vec<Vec<String>>, row: usize, col: usize) -> (text: String)
    ensures
        text@ == text_at(grid.deep_view(), row as int, col as int),
{
    if row < grid.len() && col < grid[row].len() {
        grid[row][col].clone()
    } else {
        String::new()
    }
}

/// Whether the Enter key pressed in cell `(row, col)` splits that cell: the
/// acting caret stands in it, at a boundary of its text.
pub open spec fn enter_applies(grid: Grid, caret: Option<Caret>, row: usize, col: usize) -> bool {
    let at = acting_caret(caret, row, col);
    at.0 == row && at.1 == col && can_split(grid, row as int, col as int, at.2 as nat)
}

/// The work that splitting cell `(row, col)` calls for, the cell keeping
/// `before` and the cells `lower`, whose JSON text is `json`, making up the
/// new row below: both ends of the cut are measured; the cell is rewritten;
/// the new row is created, then its cells are written from the last to the
/// first; and the first cell of the new row is written once more, with the
/// caret at its start.
pub open spec fn enter_effects(
    row: usize,
    col: usize,
    before: Seq<char>,
    lower: Seq<Seq<char>>,
    json: Seq<char>,
) -> Seq<Effect> {
    let below = (row + 1) as nat;
    seq![
        Effect::Measure(row, col, before),
        Effect::Measure((row + 1) as usize, 0usize, lower[0]),
        queued("update_text"@, cell_id(row as nat, col as nat, byte_len(before)), before),
        queued(
            "create_row"@,
            row_id(below),
            decimal(row as nat) + "|"@ + decimal(col as nat) + "|"@ + json,
        ),
    ] + Seq::new(
        lower.len(),
        |k: int|
            queued(
                "update_text"@,
                cell_id(below, (lower.len() - 1 - k) as nat, 0),
                lower[lower.len() - 1 - k],
            ),
    ) + seq![queued("update_text_cursor"@, cell_id(below, 0, 0), lower[0])]
}

/// Builds the work that splitting a cell calls for, `json` being the JSON
/// text of the new row.
pub fn enter_key_actions(
    index_i: usize,
    index_j: usize,
    before: &String,
    lower: &Vec<String>,
    json: String,
) -> (actions: Vec<Action>)
    requires
        index_i < usize::MAX,
        lower.len() > 0,
    ensures
        actions.deep_view() == enter_effects(
            index_i,
            index_j,
            before@,
            lower.deep_view(),
            json@,
        ),
{
    let ghost goal = enter_effects(index_i, index_j, before@, lower.deep_view(), json@);
    let mut actions: Vec<Action> = Vec::new();
    push_action(&mut actions, Action::Measure(index_i, index_j, before.clone()));
    push_action(&mut actions, Action::Measure(index_i + 1, 0, lower[0].clone()));
    push_queued(
        &mut actions,
        "update_text",
        get_cell_id(index_i, index_j, text_len(before.as_str())),
        before.clone(),
    );
    let mut data = String::new();
    push_decimal(&mut data, index_i);
    data.append("|");
    push_decimal(&mut data, index_j);
    data.append("|");
    data.append(json.as_str());
    assert(data@ =~= decimal(index_i as nat) + "|"@ + decimal(index_j as nat) + "|"@ + json@);
    push_queued(&mut actions, "create_row", get_row_id(index_i + 1), data);
    assert(actions.deep_view() =~= goal.take(4));
    let mut k: usize = 0;
    while k < lower.len()
        invariant
            k <= lower.len(),
            index_i < usize::MAX,
            lower.len() > 0,
            goal == enter_effects(index_i, index_j, before@, lower.deep_view(), json@),
            actions.deep_view() == goal.take(4 + k),
        decreases lower.len() - k,
    {
        let from = lower.len() - 1 - k;
        push_queued(
            &mut actions,
            "update_text",
            get_cell_id(index_i + 1, from, 0),
            lower[from].clone(),
        );
        assert(goal[4 + k] == queued(
            "update_text"@,
            cell_id((index_i + 1) as nat, from as nat, 0),
            lower.deep_view()[from as int],
        ));
        assert(actions.deep_view() =~= goal.take(4 + k + 1));
        k += 1;
    }
    push_queued(
        &mut actions,
        "update_text_cursor",
        get_cell_id(index_i + 1, 0, 0),
        lower[0].clone(),
    );
    assert(actions.deep_view() =~= goal);
    actions
}

/// Handles the Enter key pressed in cell `(index_i, index_j)`.
///
/// Where the key splits the cell, the cell keeps the text before the caret
/// and the row ends with it; what the row loses is handed to the host as
/// the row to create below. Otherwise nothing changes and nothing is to do.
pub fn handle_enter_key(index_i: usize, index_j: usize, editor: &mut EditorBuilder) -> (actions:
    Vec<Action>)
    ensures
        final(editor).state.caret_pos == old(editor).state.caret_pos,
        final(editor).state.text_width == old(editor).state.text_width,
        enter_applies(old(editor).grid(), old(editor).state.caret_pos, index_i, index_j) ==> {
            let cells = old(editor).grid()[index_i as int];
            let at = acting_caret(old(editor).state.caret_pos, index_i, index_j);
            let k = chars_before(cells[index_j as int], at.2 as nat);
            let before = cells[index_j as int].take(k);
            let lower = seq![cells[index_j as int].skip(k)] + cells.skip(index_j + 1);
            &&& final(editor).grid() == old(editor).grid().update(
                index_i as int,
                cells.take(index_j as int).push(before),
            )
            &&& actions.deep_view() == enter_effects(
                index_i,
                index_j,
                before,
                lower,
                json_of_row(lower),
            )
        },
        !enter_applies(old(editor).grid(), old(editor).state.caret_pos, index_i, index_j) ==> {
            &&& final(editor).grid() == old(editor).grid()
            &&& actions.deep_view() == Seq::<Effect>::empty()
        },
{
    let mut actions: Vec<Action> = Vec::new();
    assert(actions.deep_view() =~= Seq::<Effect>::empty());
    let (caret_i, caret_j, caret_pos) = match editor.state.caret_pos {
        Some(at) => at,
        None => (index_i, index_j, 0),
    };
    if caret_i != index_i || caret_j != index_j {
        return actions;
    }
    if index_i >= editor.state.raw_text.len() || index_j >= editor.state.raw_text[index_i].len() {
        return actions;
    }
    let ghost grid = editor.grid();
    let ghost cells = grid[index_i as int];
    match split_text(editor.state.raw_text[index_i][index_j].as_str(), caret_pos) {
        Some((before, after)) => {
            let mut lower: Vec<String> = Vec::new();
            lower.push(after);
            let mut col: usize = index_j + 1;
            assert(lower.deep_view() =~= seq![after@] + cells.subrange(index_j + 1, col as int));
            while col < editor.state.raw_text[index_i].len()
                invariant
                    index_i < editor.state.raw_text.len(),
                    index_j < col <= editor.state.raw_text[index_i as int].len(),
                    cells == editor.grid()[index_i as int],
                    lower.deep_view() == seq![after@] + cells.subrange(index_j + 1, col as int),
                decreases editor.state.raw_text[index_i as int].len() - col,
            {
                let ghost shown = lower.deep_view();
                let text = editor.state.raw_text[index_i][col].clone();
                lower.push(text);
                assert(lower.deep_view() =~= shown.push(text@));
                assert(lower.deep_view() =~= seq![after@] + cells.subrange(index_j + 1, col + 1));
                col += 1;
            }
            assert(cells.subrange(index_j + 1, cells.len() as int) =~= cells.skip(index_j + 1));
            editor.state.update_text(index_i, index_j, before.clone());
            let ghost written = cells.update(index_j as int, before@);
            assert(editor.grid() =~= grid.update(index_i as int, written));
            editor.state.truncate_row(index_i, index_j + 1);
            proof {
                let kept = cells.take(index_j as int).push(before@);
                assert(written.take(index_j + 1) =~= kept);
                if index_j + 1 == cells.len() {
                    assert(written =~= kept);
                }
                assert(grid.update(index_i as int, written).update(index_i as int, kept)
                    =~= grid.update(index_i as int, kept));
            }
            assert(editor.grid() =~= grid.update(
                index_i as int,
                cells.take(index_j as int).push(before@),
            ));
            let json = row_to_json(&lower);
            enter_key_actions(index_i, index_j, &before, &lower, json)
        },
        None => actions,
    }
}

/// The work that typing `typed` calls for, the acting caret being `at`: the
/// cell of the caret is rewritten with `typed` put in at the caret, which
/// moves past it. A caret beyond the end of the text counts as standing at
/// the end; a caret inside a character puts nothing in.
pub open spec fn typing_effects(grid: Grid, at: Caret, typed: Seq<char>) -> Seq<Effect> {
    let text = text_at(grid, at.0 as int, at.1 as int);
    let offset = if at.2 <= byte_len(text) {
        at.2 as nat
    } else {
        byte_len(text)
    };
    if is_boundary(text, offset) {
        seq![
            queued(
                "update_text_cursor"@,
                cell_id(at.0 as nat, at.1 as nat, offset + byte_len(typed)),
                inserted(text, offset, typed),
            ),
        ]
    } else {
        Seq::empty()
    }
}

/// Handles the key that types `typed`, pressed in cell `(index_i,
/// index_j)`.
pub fn handle_character_input(index_i: usize, index_j: usize, editor: &EditorBuilder, typed: &str) -> (actions:
    Vec<Action>)
    ensures
        actions.deep_view() == typing_effects(
            editor.grid(),
            acting_caret(editor.state.caret_pos, index_i, index_j),
            typed@,
        ),
{
    let mut actions: Vec<Action> = Vec::new();
    assert(actions.deep_view() =~= Seq::<Effect>::empty());
    let (current_i, current_j, current_pos) = match editor.state.caret_pos {
        Some(at) => at,
        None => (index_i, index_j, 0),
    };
    let text = cell_text_at(&editor.state.raw_text, current_i, current_j);
    let length = text_len(text.as_str());
    let offset = if current_pos <= length {
        current_pos
    } else {
        length
    };
    match insert_text(text.as_str(), offset, typed) {
        Some(edited) => {
            proof {
                let k = chars_before(text@, offset as nat);
                lemma_byte_len_concat(text@.take(k), typed@);
                lemma_byte_len_concat(text@.take(k) + typed@, text@.skip(k));
            }
            let total = text_len(edited.as_str());
            let typed_len = text_len(typed);
            assert(offset + typed_len <= total);
            push_queued(
                &mut actions,
                "update_text_cursor",
                get_cell_id(current_i, current_j, offset + typed_len),
                edited,
            );
            assert(actions.deep_view() =~= typing_effects(
                editor.grid(),
                acting_caret(editor.state.caret_pos, index_i, index_j),
                typed@,
            ));
            actions
        },
        None => actions,
    }
}

/// The work that merging row `row` into the row above it calls for, `json`
/// being the JSON text of the cells of both rows: the upper row is rewritten
/// and row `row` is deleted.
pub open spec fn merge_effects(row: usize, json: Seq<char>) -> Seq<Effect> {
    seq![
        queued(
            "update_row"@,
            row_id((row - 1) as nat),
            decimal((row - 1) as nat) + "|"@ + json,
        ),
        queued("delete_row"@, row_id(row as nat), decimal(row as nat)),
    ]
}

/// Builds the work that merging row `index_i` into the row above it calls
/// for, `json` being the JSON text of the cells of both rows.
pub fn merge_actions(index_i: usize, json: String) -> (actions: Vec<Action>)
    requires
        index_i > 0,
    ensures
        actions.deep_view() == merge_effects(index_i, json@),
{
    let mut actions: Vec<Action> = Vec::new();
    let mut data = String::new();
    push_decimal(&mut data, index_i - 1);
    data.append("|");
    data.append(json.as_str());
    assert(data@ =~= decimal((index_i - 1) as nat) + "|"@ + json@);
    push_queued(&mut actions, "update_row", get_row_id(index_i - 1), data);
    let mut row = String::new();
    push_decimal(&mut row, index_i);
    assert(row@ =~= decimal(index_i as nat));
    push_queued(&mut actions, "delete_row", get_row_id(index_i), row);
    assert(actions.deep_view() =~= merge_effects(index_i, json@));
    actions
}

/// The work that the Backspace key pressed in cell `(row, col)` calls for.
///
/// With the acting caret at the start of its cell, the key merges: in the
/// first column, row `row` into the row above it, if that row can take it,
/// which it can if it holds a cell; in any other column, the text of the caret's cell into the cell before cell
/// `(row, col)`, which cell `(row, col)` is emptied for, the caret going to
/// the end of the joined text. With the caret anywhere else, the key takes
/// out the character that begins one byte before the caret, and the caret
/// goes back by that byte. A key that has nothing to merge or to take calls
/// for nothing.
pub open spec fn backspace_effects(grid: Grid, caret: Option<Caret>, row: usize, col: usize) -> Seq<
    Effect,
> {
    let at = acting_caret(caret, row, col);
    let text = text_at(grid, at.0 as int, at.1 as int);
    if at.2 == 0 {
        if col == 0 {
            if can_merge(grid, row as int) {
                merge_effects(row, json_of_row(grid[row - 1] + grid[row as int]))
            } else {
                Seq::empty()
            }
        } else if is_cell(grid, row as int, col - 1) {
            let joined = grid[row as int][col - 1] + text;
            seq![
                queued("update_text"@, cell_id(row as nat, col as nat, 0), Seq::empty()),
                queued(
                    "update_text_cursor"@,
                    cell_id(row as nat, (col - 1) as nat, byte_len(joined)),
                    joined,
                ),
            ]
        } else {
            Seq::empty()
        }
    } else if at.2 <= byte_len(text) && is_boundary(text, (at.2 - 1) as nat) {
        seq![
            queued(
                "update_text_cursor"@,
                cell_id(at.0 as nat, at.1 as nat, (at.2 - 1) as nat),
                removed(text, (at.2 - 1) as nat),
            ),
        ]
    } else {
        Seq::empty()
    }
}

/// The cells of row `upper` followed by the cells of row `lower`.
fn joined_rows(grid: &Vec<Vec<String>>, upper: usize, lower: usize) -> (cells: Vec<String>)
    requires
        upper < grid.len(),
        lower < grid.len(),
    ensures
        cells.deep_view() == grid.deep_view()[upper as int] + grid.deep_view()[lower as int],
{
    let ghost above = grid.deep_view()[upper as int];
    let ghost below = grid.deep_view()[lower as int];
    let mut cells: Vec<String> = Vec::new();
    let mut k: usize = 0;
    assert(cells.deep_view() =~= above.take(0));
    while k < grid[upper].len()
        invariant
            upper < grid.len(),
            k <= grid[upper as int].len(),
            above == grid.deep_view()[upper as int],
            cells.deep_view() == above.take(k as int),
        decreases grid[upper as int].len() - k,
    {
        let ghost shown = cells.deep_view();
        let text = grid[upper][k].clone();
        cells.push(text);
        assert(cells.deep_view() =~= shown.push(text@));
        assert(cells.deep_view() =~= above.take(k + 1));
        k += 1;
    }
    assert(above.take(above.len() as int) =~= above);
    let mut k: usize = 0;
    assert(cells.deep_view() =~= above + below.take(0));
    while k < grid[lower].len()
        invariant
            lower < grid.len(),
            k <= grid[lower as int].len(),
            below == grid.deep_view()[lower as int],
            cells.deep_view() == above + below.take(k as int),
        decreases grid[lower as int].len() - k,
    {
        let ghost shown = cells.deep_view();
        let text = grid[lower][k].clone();
        cells.push(text);
        assert(cells.deep_view() =~= shown.push(text@));
        assert(cells.deep_view() =~= above + below.take(k + 1));
        k += 1;
    }
    assert(below.take(below.len() as int) =~= below);
    cells
}

/// Handles the Backspace key pressed in cell `(index_i, index_j)`. The
/// document changes only when the host carries the work out.
pub fn handle_backspace(index_i: usize, index_j: usize, editor: &EditorBuilder) -> (actions: Vec<
    Action,
>)
    ensures
        actions.deep_view() == backspace_effects(
            editor.grid(),
            editor.state.caret_pos,
            index_i,
            index_j,
        ),
{
    let mut actions: Vec<Action> = Vec::new();
    assert(actions.deep_view() =~= Seq::<Effect>::empty());
    let grid = &editor.state.raw_text;
    let (current_i, current_j, e_pos) = match editor.state.caret_pos {
        Some(at) => at,
        None => (index_i, index_j, 0),
    };
    let e_text = cell_text_at(grid, current_i, current_j);
    if e_pos == 0 {
        if index_j == 0 {
            if index_i > 0 && index_i < grid.len() && grid[index_i - 1].len() > 0 {
                let cells = joined_rows(grid, index_i - 1, index_i);
                let json = row_to_json(&cells);
                return merge_actions(index_i, json);
            }
            actions
        } else if index_i < grid.len() && index_j - 1 < grid[index_i].len() {
            let mut joined = grid[index_i][index_j - 1].clone();
            joined.append(e_text.as_str());
            push_queued(&mut actions, "update_text", get_cell_id(index_i, index_j, 0), String::new());
            push_queued(
                &mut actions,
                "update_text_cursor",
                get_cell_id(index_i, index_j - 1, text_len(joined.as_str())),
                joined,
            );
            assert(actions.deep_view() =~= backspace_effects(
                editor.grid(),
                editor.state.caret_pos,
                index_i,
                index_j,
            ));
            actions
        } else {
            actions
        }
    } else if e_pos <= text_len(e_text.as_str()) {
        match remove_char(e_text.as_str(), e_pos - 1) {
            Some(edited) => {
                push_queued(
                    &mut actions,
                    "update_text_cursor",
                    get_cell_id(current_i, current_j, e_pos - 1),
                    edited,
                );
                assert(actions.deep_view() =~= backspace_effects(
                    editor.grid(),
                    editor.state.caret_pos,
                    index_i,
                    index_j,
                ));
                actions
            },
            None => actions,
        }
    } else {
        actions
    }
}

/// What `n - 1` is for a `usize` that stops at zero.
pub open spec fn pred(n: nat) -> nat {
    if n == 0 {
        0
    } else {
        (n - 1) as nat
    }
}

/// Where the Left key pressed in cell `(row, col)` takes the caret `at`, if
/// it stands in that cell: one byte to the left; from the start of a cell to
/// the cell before it, one byte before its end; from the start of a row to
/// the end of the row above. At the start of the document the caret stays.
/// A place that the grid does not have is no place to go to.
pub open spec fn left_target(grid: Grid, at: Caret, row: usize, col: usize) -> Option<Caret> {
    if at.0 != row || at.1 != col {
        None
    } else if at.2 > 0 {
        Some((row, col, (at.2 - 1) as usize))
    } else if col > 0 {
        if is_cell(grid, row as int, col - 1) {
            Some((row, (col - 1) as usize, pred(byte_len(grid[row as int][col - 1])) as usize))
        } else {
            None
        }
    } else if row > 0 {
        if row - 1 < grid.len() && grid[row - 1].len() > 0 {
            Some(
                (
                    (row - 1) as usize,
                    (grid[row - 1].len() - 1) as usize,
                    byte_len(grid[row - 1].last()) as usize,
                ),
            )
        } else {
            None
        }
    } else {
        Some((row, 0usize, 0usize))
    }
}

/// Where the Right key pressed in cell `(row, col)` takes the acting caret,
/// if it stands in that cell: one byte to the right; from the end of the
/// text to the start of the next cell, or of the next row after the last
/// cell. At the end of the document the caret goes to the end of the text.
/// The text is the one that the editor takes for the text of the cell with
/// the focus.
pub open spec fn right_target(grid: Grid, caret: Option<Caret>, row: usize, col: usize) -> Option<
    Caret,
> {
    let at = acting_caret(caret, row, col);
    let length = byte_len(current_text(grid, caret));
    if at.0 != row || at.1 != col || row >= grid.len() {
        None
    } else if at.2 < length {
        Some((row, col, (at.2 + 1) as usize))
    } else if grid[row as int].len() == 0 {
        None
    } else if col < grid[row as int].len() - 1 {
        Some((row, (col + 1) as usize, 0usize))
    } else if col == grid[row as int].len() - 1 && row < grid.len() - 1 {
        Some(((row + 1) as usize, 0usize, 0usize))
    } else {
        Some((row, col, length as usize))
    }
}

/// The caret in row `to` that stands for column `col` and the offset
/// `offset` of another row: the same column, or the last one where the row
/// is shorter, and the same offset, or the end of the text where that is
/// shorter. A row without cells holds no caret.
pub open spec fn caret_in_row(grid: Grid, to: int, col: usize, offset: usize) -> Option<Caret> {
    if 0 <= to < grid.len() && grid[to].len() > 0 {
        let j = if col < grid[to].len() {
            col as int
        } else {
            grid[to].len() - 1
        };
        let length = byte_len(grid[to][j]);
        Some(
            (
                to as usize,
                j as usize,
                if offset < length {
                    offset
                } else {
                    length as usize
                },
            ),
        )
    } else {
        None
    }
}

/// Where the Up key pressed in cell `(row, col)` takes a caret at the
/// offset `offset`: into the row above, or nowhere from the first row.
pub open spec fn up_target(grid: Grid, row: usize, col: usize, offset: usize) -> Option<Caret> {
    if row > 0 {
        caret_in_row(grid, row - 1, col, offset)
    } else {
        Some((row, col, offset))
    }
}

/// Where the Down key pressed in cell `(row, col)` takes a caret at the
/// offset `offset`: into the row below, or nowhere from the last row.
pub open spec fn down_target(grid: Grid, row: usize, col: usize, offset: usize) -> Option<Caret> {
    if row + 1 < grid.len() {
        caret_in_row(grid, row + 1, col, offset)
    } else {
        Some((row, col, offset))
    }
}

/// The work of a key that moves the caret sideways to `target`: the caret of
/// the cell is read back and the cell is given the focus.
pub open spec fn sideways_effects(target: Option<Caret>) -> Seq<Effect> {
    match target {
        Some((row, col, offset)) => seq![
            Effect::ReadCaret(row, col),
            Effect::Focus(row, col, offset),
        ],
        None => Seq::empty(),
    }
}

/// The work of a key pressed in cell `(row, col)` that moves the caret up or
/// down to `target`: another cell is given the focus; in the same cell the
/// caret is read back.
pub open spec fn vertical_effects(target: Option<Caret>, row: usize, col: usize) -> Seq<Effect> {
    match target {
        Some((to_row, to_col, offset)) => if to_row != row || to_col != col {
            seq![Effect::Focus(to_row, to_col, offset)]
        } else {
            seq![Effect::ReadCaret(to_row, to_col)]
        },
        None => Seq::empty(),
    }
}

/// Whether a key pressed in cell `(row, col)` is for the editor to handle:
/// the page has told where its caret is, and the acting caret stands in that
/// cell.
pub open spec fn key_applies(caret: Option<Caret>, row: usize, col: usize, editor_pos: Option<usize>) -> bool {
    editor_pos is Some && acting_caret(caret, row, col).0 == row && acting_caret(
        caret,
        row,
        col,
    ).1 == col
}

/// Builds [`sideways_effects`].
fn sideways_actions(target: Option<(usize, usize, usize)>) -> (actions: Vec<Action>)
    ensures
        actions.deep_view() == sideways_effects(target),
{
    let mut actions: Vec<Action> = Vec::new();
    assert(actions.deep_view() =~= Seq::<Effect>::empty());
    if let Some((row, col, offset)) = target {
        push_action(&mut actions, Action::ReadCaret(row, col));
        push_action(&mut actions, Action::Focus(row, col, offset));
        assert(actions.deep_view() =~= sideways_effects(target));
    }
    actions
}

/// Builds [`vertical_effects`].
fn vertical_actions(target: Option<(usize, usize, usize)>, row: usize, col: usize) -> (actions: Vec<
    Action,
>)
    ensures
        actions.deep_view() == vertical_effects(target, row, col),
{
    let mut actions: Vec<Action> = Vec::new();
    assert(actions.deep_view() =~= Seq::<Effect>::empty());
    if let Some((to_row, to_col, offset)) = target {
        if to_row != row || to_col != col {
            push_action(&mut actions, Action::Focus(to_row, to_col, offset));
        } else {
            push_action(&mut actions, Action::ReadCaret(to_row, to_col));
        }
        assert(actions.deep_view() =~= vertical_effects(target, row, col));
    }
    actions
}

/// Computes [`caret_in_row`].
fn caret_in_row_of(grid: &Vec<Vec<String>>, to: usize, col: usize, offset: usize) -> (target:
    Option<(usize, usize, usize)>)
    ensures
        target == caret_in_row(grid.deep_view(), to as int, col, offset),
{
    if to < grid.len() && grid[to].len() > 0 {
        let j = if col < grid[to].len() {
            col
        } else {
            grid[to].len() - 1
        };
        let length = text_len(grid[to][j].as_str());
        Some((to, j, if offset < length {
            offset
        } else {
            length
        }))
    } else {
        None
    }
}

/// Handles the Left key pressed in cell `(index_i, index_j)`, the page
/// having told where its caret is.
pub fn handle_left_arrow(
    index_i: usize,
    index_j: usize,
    editor: &EditorBuilder,
    editor_pos: Option<usize>,
) -> (actions: Vec<Action>)
    ensures
        actions.deep_view() == if editor_pos is Some {
            sideways_effects(
                left_target(
                    editor.grid(),
                    acting_caret(editor.state.caret_pos, index_i, index_j),
                    index_i,
                    index_j,
                ),
            )
        } else {
            Seq::empty()
        },
{
    let grid = &editor.state.raw_text;
    let (current_i, current_j, current_pos) = match editor.state.caret_pos {
        Some(at) => at,
        None => (index_i, index_j, 0),
    };
    if editor_pos.is_none() || current_i != index_i || current_j != index_j {
        return sideways_actions(None);
    }
    let target = if current_pos > 0 {
        Some((index_i, index_j, current_pos - 1))
    } else if index_j > 0 {
        if index_i < grid.len() && index_j - 1 < grid[index_i].len() {
            let length = text_len(grid[index_i][index_j - 1].as_str());
            Some((index_i, index_j - 1, if length == 0 {
                0
            } else {
                length - 1
            }))
        } else {
            None
        }
    } else if index_i > 0 {
        if index_i - 1 < grid.len() && grid[index_i - 1].len() > 0 {
            let prev_j = grid[index_i - 1].len() - 1;
            Some((index_i - 1, prev_j, text_len(grid[index_i - 1][prev_j].as_str())))
        } else {
            None
        }
    } else {
        Some((index_i, 0, 0))
    };
    sideways_actions(target)
}

/// Handles the Right key pressed in cell `(index_i, index_j)`, the page
/// having told where its caret is.
pub fn handle_right_arrow(
    index_i: usize,
    index_j: usize,
    editor: &EditorBuilder,
    editor_pos: Option<usize>,
) -> (actions: Vec<Action>)
    ensures
        actions.deep_view() == if editor_pos is Some {
            sideways_effects(
                right_target(editor.grid(), editor.state.caret_pos, index_i, index_j),
            )
        } else {
            Seq::empty()
        },
{
    let grid = &editor.state.raw_text;
    let (current_i, current_j, current_pos) = match editor.state.caret_pos {
        Some(at) => at,
        None => (index_i, index_j, 0),
    };
    if editor_pos.is_none() || current_i != index_i || current_j != index_j || index_i
        >= grid.len() {
        return sideways_actions(None);
    }
    let length = text_len(editor.get_raw_text_current().as_str());
    let cols = grid[index_i].len();
    let rows = grid.len();
    let target = if current_pos < length {
        Some((index_i, index_j, current_pos + 1))
    } else if cols == 0 {
        None
    } else if index_j < cols - 1 {
        Some((index_i, index_j + 1, 0))
    } else if index_j == cols - 1 && index_i < rows - 1 {
        Some((index_i + 1, 0, 0))
    } else {
        Some((index_i, index_j, length))
    };
    sideways_actions(target)
}

/// Handles the Up key pressed in cell `(index_i, index_j)`, the page having
/// told where its caret is.
pub fn handle_up_arrow(
    index_i: usize,
    index_j: usize,
    editor: &EditorBuilder,
    editor_pos: Option<usize>,
) -> (actions: Vec<Action>)
    ensures
        actions.deep_view() == match editor_pos {
            Some(offset) => if key_applies(
                editor.state.caret_pos,
                index_i,
                index_j,
                editor_pos,
            ) {
                vertical_effects(
                    up_target(editor.grid(), index_i, index_j, offset),
                    index_i,
                    index_j,
                )
            } else {
                Seq::empty()
            },
            None => Seq::empty(),
        },
{
    let grid = &editor.state.raw_text;
    let (current_i, current_j, _) = match editor.state.caret_pos {
        Some(at) => at,
        None => (index_i, index_j, 0),
    };
    match editor_pos {
        Some(e_pos) => {
            if current_i != index_i || current_j != index_j {
                return vertical_actions(None, index_i, index_j);
            }
            let target = if index_i > 0 {
                caret_in_row_of(grid, index_i - 1, index_j, e_pos)
            } else {
                Some((index_i, index_j, e_pos))
            };
            vertical_actions(target, index_i, index_j)
        },
        None => vertical_actions(None, index_i, index_j),
    }
}

/// Handles the Down key pressed in cell `(index_i, index_j)`, the page
/// having told where its caret is.
pub fn handle_down_arrow(
    index_i: usize,
    index_j: usize,
    editor: &EditorBuilder,
    editor_pos: Option<usize>,
) -> (actions: Vec<Action>)
    ensures
        actions.deep_view() == match editor_pos {
            Some(offset) => if key_applies(
                editor.state.caret_pos,
                index_i,
                index_j,
                editor_pos,
            ) {
                vertical_effects(
                    down_target(editor.grid(), index_i, index_j, offset),
                    index_i,
                    index_j,
                )
            } else {
                Seq::empty()
            },
            None => Seq::empty(),
        },
{
    let grid = &editor.state.raw_text;
    let (current_i, current_j, _) = match editor.state.caret_pos {
        Some(at) => at,
        None => (index_i, index_j, 0),
    };
    match editor_pos {
        Some(e_pos) => {
            if current_i != index_i || current_j != index_j {
                return vertical_actions(None, index_i, index_j);
            }
            let target = if grid.len() > 0 && index_i < grid.len() - 1 {
                caret_in_row_of(grid, index_i + 1, index_j, e_pos)
            } else {
                Some((index_i, index_j, e_pos))
            };
            vertical_actions(target, index_i, index_j)
        },
        None => vertical_actions(None, index_i, index_j),
    }
}

} // verus!
