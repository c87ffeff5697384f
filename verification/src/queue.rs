//! The queue of pending updates: what each entry does to the document and
//! what work in the page it calls for.

use vstd::prelude::*;
use vstd::string::StringExecFns;
use crate::builder::EditorBuilder;
use crate::codec::{
    base64_len, base64_of, json_of_row, json_to_row, row_of_json, text_to_base64,
};
use crate::dom::{
    cell_id, clear_text_script, create_cell_script, create_row_script, delete_element_script,
    delete_row_script, element_id, focus_script, get_element_id, make_clear_text_script,
    make_create_cell_script, make_create_row_script, make_delete_element_script,
    make_delete_row_script, make_focus_script, make_positioned_text_script,
    positioned_text_script, push_action, row_id, Action, DomUpdate, Effect, Message,
};
use crate::handler::{acting_caret, backspace_effects, enter_applies, text_at, typing_effects};
use crate::numbers::{
    decimal, is_digit, lemma_decimal_is_number, lemma_parse_decimal, parse_bool, parse_usize,
    parsed_bool, parsed_usize,
};
use crate::offsets::{chars_before, inserted};
use crate::state::{
    absorbed_grid, can_merge, clamped_caret, is_cell, lemma_with_text_grows_and_keeps,
    merged_grid, pad_rows, padded, split_grid, with_text, Caret, Grid,
};
use crate::strings::{
    byte_len, cut, cut_chars, fields, from_chars, lemma_cut_at_first_sep,
    lemma_fields_without_sep, split_fields, text_len, to_chars,
};

verus! {

/// What an entry of the queue leaves behind: the grid, the caret, and the
/// work for the host.
pub struct Outcome {
    pub grid: Grid,
    pub caret: Option<Caret>,
    pub effects: Seq<Effect>,
}

/// The outcome of an entry that changes nothing and calls for no work.
pub open spec fn untouched(grid: Grid, caret: Option<Caret>) -> Outcome {
    Outcome { grid, caret, effects: Seq::empty() }
}

/// The cell and the offset that an id of the form `row,col,offset` names.
pub open spec fn parsed_cell_id(id: Seq<char>) -> Option<Caret> {
    let parts = fields(id, ',');
    if parts.len() == 3 {
        match (parsed_usize(parts[0]), parsed_usize(parts[1]), parsed_usize(parts[2])) {
            (Some(row), Some(col), Some(offset)) => Some((row, col, offset)),
            _ => None,
        }
    } else {
        None
    }
}

/// The cell that a text of the form `row,col` names.
pub open spec fn parsed_cell(text: Seq<char>) -> Option<(usize, usize)> {
    let parts = fields(text, ',');
    if parts.len() == 2 {
        match (parsed_usize(parts[0]), parsed_usize(parts[1])) {
            (Some(row), Some(col)) => Some((row, col)),
            _ => None,
        }
    } else {
        None
    }
}

/// The caret after a move to `(row, col, offset)` in `grid`.
pub open spec fn moved_caret(grid: Grid, row: usize, col: usize, offset: usize) -> Option<Caret> {
    if is_cell(grid, row as int, col as int) {
        Some((row, col, offset))
    } else {
        None
    }
}

/// The scripts that write the cells of one row into the page, from the
/// first cell to the last.
pub open spec fn row_rewrite(cells: Seq<Seq<char>>, row: nat) -> Seq<Effect> {
    Seq::new(
        cells.len(),
        |col: int| Effect::Eval(clear_text_script(element_id(row, col as nat), cells[col])),
    )
}

/// The scripts that write the rows of `grid` from row `from` on into the
/// page, row after row.
pub open spec fn rewrite_from(grid: Grid, from: nat) -> Seq<Effect>
    decreases grid.len() - from,
{
    if from >= grid.len() {
        Seq::empty()
    } else {
        row_rewrite(grid[from as int], from) + rewrite_from(grid, from + 1)
    }
}

/// `update_text`: the text `data` is written into the cell that `id` names,
/// in the document and in the page.
pub open spec fn update_text_outcome(grid: Grid, caret: Option<Caret>, id: Seq<char>, data: Option<Seq<char>>) -> Outcome {
    match (data, parsed_cell_id(id)) {
        (Some(text), Some((row, col, _))) => Outcome {
            grid: with_text(grid, row as nat, col as nat, text),
            caret: clamped_caret(caret, row, col, text),
            effects: seq![
                Effect::Eval(clear_text_script(element_id(row as nat, col as nat), text)),
            ],
        },
        _ => untouched(grid, caret),
    }
}

/// The outcome of writing `text` into cell `(row, col)` with the caret at
/// `offset`: the cell holds the text and the caret stands in it. The page is
/// told so where the text is short enough for its Base64 form to be made.
pub open spec fn text_written(grid: Grid, row: usize, col: usize, offset: usize, text: Seq<char>) -> Outcome {
    Outcome {
        grid: with_text(grid, row as nat, col as nat, text),
        caret: Some((row, col, offset)),
        effects: if base64_len(byte_len(text)) <= isize::MAX {
            seq![
                Effect::Eval(
                    positioned_text_script(
                        element_id(row as nat, col as nat),
                        base64_of(text),
                        offset as nat,
                    ),
                ),
            ]
        } else {
            Seq::empty()
        },
    }
}

/// `update_text_cursor`: the text `data` is written into the cell that `id`
/// names, with the caret at the offset that `id` names.
pub open spec fn update_text_cursor_outcome(
    grid: Grid,
    caret: Option<Caret>,
    id: Seq<char>,
    data: Option<Seq<char>>,
) -> Outcome {
    match (data, parsed_cell_id(id)) {
        (Some(text), Some((row, col, offset))) => text_written(grid, row, col, offset, text),
        _ => untouched(grid, caret),
    }
}

/// `delete_row`: the row that `data` names is taken out of the document and
/// the rows from there on are written into the page again. Without data the
/// page alone is told to take out the row element `id`.
pub open spec fn delete_row_outcome(grid: Grid, caret: Option<Caret>, id: Seq<char>, data: Option<Seq<char>>) -> Outcome {
    match data {
        Some(text) => match parsed_usize(text) {
            Some(row) => {
                let left = if row < grid.len() {
                    grid.remove(row as int)
                } else {
                    grid
                };
                Outcome { grid: left, caret, effects: rewrite_from(left, row as nat) }
            },
            None => untouched(grid, caret),
        },
        None => Outcome { grid, caret, effects: seq![Effect::Eval(delete_row_script(id))] },
    }
}

/// `internal_process`: the host notes the truth value that `data` writes.
pub open spec fn internal_process_outcome(grid: Grid, caret: Option<Caret>, data: Option<Seq<char>>) -> Outcome {
    match data {
        Some(text) => match parsed_bool(text) {
            Some(on) => Outcome { grid, caret, effects: seq![Effect::SetInternal(on)] },
            None => untouched(grid, caret),
        },
        None => untouched(grid, caret),
    }
}

/// `focus_element`: the cell that `data` names is given the focus in the
/// page, and its caret is read back.
pub open spec fn focus_element_outcome(grid: Grid, caret: Option<Caret>, data: Option<Seq<char>>) -> Outcome {
    match data {
        Some(text) => match parsed_cell_id(text) {
            Some((row, col, offset)) => Outcome {
                grid,
                caret,
                effects: seq![
                    Effect::Eval(focus_script(element_id(row as nat, col as nat), offset as nat)),
                    Effect::ReadCaret(row, col),
                ],
            },
            None => untouched(grid, caret),
        },
        None => untouched(grid, caret),
    }
}

/// The outcome of putting the row `cells` in below row `row`: the caret
/// moves to the start of the new row, and the rows from there on are written
/// into the page again. Nothing happens where the grid has no place for the
/// row.
pub open spec fn row_created(grid: Grid, caret: Option<Caret>, row: usize, cells: Seq<Seq<char>>) -> Outcome {
    if row < grid.len() {
        let grown = grid.insert(row + 1, cells);
        Outcome {
            grid: grown,
            caret: moved_caret(grown, (row + 1) as usize, 0, 0),
            effects: rewrite_from(grown, (row + 1) as nat),
        }
    } else {
        untouched(grid, caret)
    }
}

/// What the data of a `create_row` entry holds: a row index, then a bar, a
/// column index, then a bar, and the JSON text of a row, which is all that
/// follows the second bar.
pub open spec fn parsed_row_data(data: Seq<char>) -> Option<(usize, usize, Seq<char>)> {
    match cut(data, '|') {
        Some((row, rest)) => match cut(rest, '|') {
            Some((col, json)) => match (parsed_usize(row), parsed_usize(col)) {
                (Some(row), Some(col)) => Some((row, col, json)),
                _ => None,
            },
            None => None,
        },
        None => None,
    }
}

/// `create_row`: the row that the data holds is put in below the row of the
/// index that the data holds. Without data the page alone is told to put in
/// the row element `id`.
pub open spec fn create_row_outcome(grid: Grid, caret: Option<Caret>, id: Seq<char>, data: Option<Seq<char>>) -> Outcome {
    match data {
        Some(text) => match parsed_row_data(text) {
            Some((row, _, json)) => match row_of_json(json) {
                Some(cells) => row_created(grid, caret, row, cells),
                None => untouched(grid, caret),
            },
            None => untouched(grid, caret),
        },
        None => Outcome { grid, caret, effects: seq![Effect::Eval(create_row_script(id))] },
    }
}

/// `delete_element`: the page is told to take out the element `id`, and the
/// cell that `data` names, if it names one, is taken out of its row.
pub open spec fn delete_element_outcome(grid: Grid, caret: Option<Caret>, id: Seq<char>, data: Option<Seq<char>>) -> Outcome {
    let left = match data {
        Some(text) => match parsed_cell(text) {
            Some((row, col)) => if is_cell(grid, row as int, col as int) {
                grid.update(row as int, grid[row as int].remove(col as int))
            } else {
                grid
            },
            None => grid,
        },
        None => grid,
    };
    Outcome { grid: left, caret, effects: seq![Effect::Eval(delete_element_script(id))] }
}

/// `create_cell`: `data` holds a row index, a column index, the id of a row
/// element, a text and a style, with commas between them; the text is
/// written into the cell of the indices, the grid having grown by rows of
/// one empty cell until the row exists, and the page is told to put in the
/// cell element `id`.
pub open spec fn create_cell_outcome(grid: Grid, caret: Option<Caret>, id: Seq<char>, data: Option<Seq<char>>) -> Outcome {
    match data {
        Some(text) => {
            let parts = fields(text, ',');
            if parts.len() >= 5 {
                match (parsed_usize(parts[0]), parsed_usize(parts[1])) {
                    (Some(row), Some(col)) => Outcome {
                        grid: with_text(
                            padded(grid, row as nat + 1),
                            row as nat,
                            col as nat,
                            parts[3],
                        ),
                        caret,
                        effects: seq![
                            Effect::Eval(create_cell_script(id, parts[2], parts[3], parts[4])),
                        ],
                    },
                    _ => untouched(grid, caret),
                }
            } else {
                untouched(grid, caret)
            }
        },
        None => untouched(grid, caret),
    }
}

/// The outcome of merging the row below row `row` into it: the caret moves
/// to where the rows meet, the row is written into the page again, and the
/// cell of the caret is given the focus. Nothing happens where the rows
/// cannot be merged.
pub open spec fn row_absorbed(grid: Grid, caret: Option<Caret>, row: usize) -> Outcome {
    if can_merge(grid, row + 1) {
        let merged = absorbed_grid(grid, row + 1);
        let col = (grid[row as int].len() - 1) as usize;
        let offset = byte_len(grid[row as int].last()) as usize;
        Outcome {
            grid: merged,
            caret: Some((row, col, offset)),
            effects: row_rewrite(merged[row as int], row as nat).push(
                Effect::Focus(row, col, offset),
            ),
        }
    } else {
        untouched(grid, caret)
    }
}

/// `update_row`: `data` holds a row index, then a bar, then a text; the row
/// below the row of the index is merged into it.
pub open spec fn update_row_outcome(grid: Grid, caret: Option<Caret>, data: Option<Seq<char>>) -> Outcome {
    match data {
        Some(text) => match cut(text, '|') {
            Some((row, _)) => match parsed_usize(row) {
                Some(row) => row_absorbed(grid, caret, row),
                None => untouched(grid, caret),
            },
            None => untouched(grid, caret),
        },
        None => untouched(grid, caret),
    }
}

/// What the entry `message` does to a document with the grid `grid` and the
/// caret `caret`. An entry with an operation that the queue does not know
/// does nothing.
pub open spec fn outcome(grid: Grid, caret: Option<Caret>, message: Message) -> Outcome {
    let (operation, id, data) = message;
    if operation == "update_text"@ {
        update_text_outcome(grid, caret, id, data)
    } else if operation == "update_text_cursor"@ {
        update_text_cursor_outcome(grid, caret, id, data)
    } else if operation == "delete_row"@ {
        delete_row_outcome(grid, caret, id, data)
    } else if operation == "internal_process"@ {
        internal_process_outcome(grid, caret, data)
    } else if operation == "focus_element"@ {
        focus_element_outcome(grid, caret, data)
    } else if operation == "create_row"@ {
        create_row_outcome(grid, caret, id, data)
    } else if operation == "delete_element"@ {
        delete_element_outcome(grid, caret, id, data)
    } else if operation == "create_cell"@ {
        create_cell_outcome(grid, caret, id, data)
    } else if operation == "update_row"@ {
        update_row_outcome(grid, caret, data)
    } else {
        untouched(grid, caret)
    }
}

/// Whether the editor and the work handed out are what `outcome` says.
pub open spec fn reaches(editor: EditorBuilder, actions: Vec<Action>, outcome: Outcome) -> bool {
    &&& editor.grid() == outcome.grid
    &&& editor.state.caret_pos == outcome.caret
    &&& actions.deep_view() == outcome.effects
}

/// The text that optional data holds.
pub open spec fn data_of(data: Option<String>) -> Option<Seq<char>> {
    match data {
        Some(text) => Some(text@),
        None => None,
    }
}

/// The cell and the offset that `id` names.
pub fn parse_cell_id(id: &str) -> (r: Option<(usize, usize, usize)>)
    ensures
        r == parsed_cell_id(id@),
{
    let chars = to_chars(id);
    let parts = split_fields(&chars, ',');
    if parts.len() != 3 {
        return None;
    }
    assert(parts.deep_view()[0] =~= parts[0]@);
    assert(parts.deep_view()[1] =~= parts[1]@);
    assert(parts.deep_view()[2] =~= parts[2]@);
    match (parse_usize(&parts[0]), parse_usize(&parts[1]), parse_usize(&parts[2])) {
        (Some(row), Some(col), Some(offset)) => Some((row, col, offset)),
        _ => None,
    }
}

/// The cell that `text` names.
pub fn parse_cell(text: &str) -> (r: Option<(usize, usize)>)
    ensures
        r == parsed_cell(text@),
{
    let chars = to_chars(text);
    let parts = split_fields(&chars, ',');
    if parts.len() != 2 {
        return None;
    }
    assert(parts.deep_view()[0] =~= parts[0]@);
    assert(parts.deep_view()[1] =~= parts[1]@);
    match (parse_usize(&parts[0]), parse_usize(&parts[1])) {
        (Some(row), Some(col)) => Some((row, col)),
        _ => None,
    }
}

/// What the data of a `create_row` entry holds.
pub fn parse_row_data(data: &str) -> (r: Option<(usize, usize, String)>)
    ensures
        match r {
            Some((row, col, json)) => parsed_row_data(data@) == Some((row, col, json@)),
            None => parsed_row_data(data@) is None,
        },
{
    let chars = to_chars(data);
    match cut_chars(&chars, '|') {
        Some((row, rest)) => match cut_chars(&rest, '|') {
            Some((col, json)) => match (parse_usize(&row), parse_usize(&col)) {
                (Some(row), Some(col)) => {
                    let text = from_chars(&json, 0, json.len());
                    assert(text@ =~= json@);
                    Some((row, col, text))
                },
                _ => None,
            },
            None => None,
        },
        None => None,
    }
}

/// Pushes the scripts that write the cells of row `row` into the page.
fn push_row_rewrite(actions: &mut Vec<Action>, grid: &Vec<Vec<String>>, row: usize)
    requires
        row < grid.len(),
    ensures
        final(actions).deep_view() == old(actions).deep_view() + row_rewrite(
            grid.deep_view()[row as int],
            row as nat,
        ),
{
    let ghost cells = grid.deep_view()[row as int];
    let ghost goal = row_rewrite(cells, row as nat);
    let mut col: usize = 0;
    assert(actions.deep_view() =~= old(actions).deep_view() + goal.take(0));
    while col < grid[row].len()
        invariant
            row < grid.len(),
            col <= grid[row as int].len(),
            cells == grid.deep_view()[row as int],
            goal == row_rewrite(cells, row as nat),
            actions.deep_view() == old(actions).deep_view() + goal.take(col as int),
        decreases grid[row as int].len() - col,
    {
        let id = get_element_id(row, col);
        let script = make_clear_text_script(id.as_str(), grid[row][col].as_str());
        push_action(actions, Action::Eval(script));
        assert(actions.deep_view() =~= old(actions).deep_view() + goal.take(col + 1));
        col += 1;
    }
    assert(goal.take(goal.len() as int) =~= goal);
}

/// Pushes the scripts that write the rows from row `from` on into the page.
fn push_rewrite_from(actions: &mut Vec<Action>, grid: &Vec<Vec<String>>, from: usize)
    ensures
        final(actions).deep_view() == old(actions).deep_view() + rewrite_from(
            grid.deep_view(),
            from as nat,
        ),
{
    let ghost shown = grid.deep_view();
    if from >= grid.len() {
        assert(actions.deep_view() =~= old(actions).deep_view() + rewrite_from(shown, from as nat));
        return;
    }
    let ghost first = actions.deep_view();
    let mut next: usize = from;
    while next < grid.len()
        invariant
            from <= next <= grid.len(),
            shown == grid.deep_view(),
            actions.deep_view() + rewrite_from(shown, next as nat) == first + rewrite_from(
                shown,
                from as nat,
            ),
        decreases grid.len() - next,
    {
        let ghost before = actions.deep_view();
        push_row_rewrite(actions, grid, next);
        assert(actions.deep_view() + rewrite_from(shown, (next + 1) as nat) =~= before
            + rewrite_from(shown, next as nat));
        next += 1;
    }
    assert(actions.deep_view() =~= first + rewrite_from(shown, from as nat));
}

/// A number written in decimal holds nothing but digits.
proof fn lemma_decimal_without(n: nat, sep: char)
    requires
        !is_digit(sep),
    ensures
        forall|i: int| 0 <= i < decimal(n).len() ==> decimal(n)[i] != sep,
{
    lemma_decimal_is_number(n);
}

/// The id that the editor writes for a cell and an offset reads back as that
/// cell and that offset.
pub proof fn lemma_cell_id_reads_back(row: usize, col: usize, offset: usize)
    ensures
        parsed_cell_id(cell_id(row as nat, col as nat, offset as nat)) == Some((row, col, offset)),
{
    reveal_strlit(",");
    let a = decimal(row as nat);
    let b = decimal(col as nat);
    let c = decimal(offset as nat);
    assert(","@ =~= seq![',']);
    assert(cell_id(row as nat, col as nat, offset as nat) =~= a + seq![','] + (b + seq![','] + c));
    lemma_decimal_without(row as nat, ',');
    lemma_decimal_without(col as nat, ',');
    lemma_decimal_without(offset as nat, ',');
    lemma_cut_at_first_sep(a, b + seq![','] + c, ',');
    lemma_cut_at_first_sep(b, c, ',');
    lemma_fields_without_sep(c, ',');
    lemma_parse_decimal(row);
    lemma_parse_decimal(col);
    lemma_parse_decimal(offset);
    assert(fields(cell_id(row as nat, col as nat, offset as nat), ',') =~= seq![a, b, c]);
}

/// The data that the editor writes for a row to create reads back as the
/// indices and the JSON text that went into it, whatever the JSON text
/// holds.
pub proof fn lemma_row_data_reads_back(row: usize, col: usize, json: Seq<char>)
    ensures
        parsed_row_data(decimal(row as nat) + "|"@ + decimal(col as nat) + "|"@ + json) == Some(
            (row, col, json),
        ),
{
    reveal_strlit("|");
    let a = decimal(row as nat);
    let b = decimal(col as nat);
    assert("|"@ =~= seq!['|']);
    assert(a + "|"@ + b + "|"@ + json =~= a + seq!['|'] + (b + seq!['|'] + json));
    lemma_decimal_without(row as nat, '|');
    lemma_decimal_without(col as nat, '|');
    lemma_cut_at_first_sep(a, b + seq!['|'] + json, '|');
    lemma_cut_at_first_sep(b, json, '|');
    lemma_parse_decimal(row);
    lemma_parse_decimal(col);
}

/// An entry that the editor writes for a text and a caret is carried out as
/// written: the cell holds the text and the caret stands at the offset.
pub proof fn lemma_text_entry_is_carried_out(
    grid: Grid,
    caret: Option<Caret>,
    row: usize,
    col: usize,
    offset: usize,
    text: Seq<char>,
)
    ensures
        outcome(
            grid,
            caret,
            ("update_text_cursor"@, cell_id(row as nat, col as nat, offset as nat), Some(text)),
        ) == text_written(grid, row, col, offset, text),
{
    reveal_strlit("update_text_cursor");
    reveal_strlit("update_text");
    assert("update_text_cursor"@.len() != "update_text"@.len());
    lemma_cell_id_reads_back(row, col, offset);
}

/// Typing, carried out, puts the typed text in at the caret and moves the
/// caret past it.
pub proof fn lemma_typing_is_carried_out(
    grid: Grid,
    caret: Option<Caret>,
    row: usize,
    col: usize,
    typed: Seq<char>,
)
    requires
        typing_effects(grid, acting_caret(caret, row, col), typed).len() > 0,
        byte_len(text_at(grid, acting_caret(caret, row, col).0 as int, acting_caret(caret, row, col).1 as int))
            + byte_len(typed) <= usize::MAX,
    ensures
        ({
            let at = acting_caret(caret, row, col);
            let text = text_at(grid, at.0 as int, at.1 as int);
            let offset = if at.2 <= byte_len(text) {
                at.2 as nat
            } else {
                byte_len(text)
            };
            let done = typing_effects(grid, at, typed)[0];
            &&& done matches Effect::Queue(entry)
            &&& outcome(grid, caret, entry).grid == with_text(
                grid,
                at.0 as nat,
                at.1 as nat,
                inserted(text, offset, typed),
            )
            &&& outcome(grid, caret, entry).caret == Some(
                (at.0, at.1, (offset + byte_len(typed)) as usize),
            )
        }),
{
    let at = acting_caret(caret, row, col);
    let text = text_at(grid, at.0 as int, at.1 as int);
    let offset = if at.2 <= byte_len(text) {
        at.2 as nat
    } else {
        byte_len(text)
    };
    lemma_text_entry_is_carried_out(
        grid,
        caret,
        at.0,
        at.1,
        (offset + byte_len(typed)) as usize,
        inserted(text, offset, typed),
    );
}

/// Handling the Enter key and then creating the row that the key handed out
/// amounts to splitting the row at the caret: the grid is the split grid,
/// and the caret stands at the start of the new row.
pub proof fn lemma_enter_then_create_row(grid: Grid, caret: Option<Caret>, row: usize, col: usize)
    requires
        enter_applies(grid, caret, row, col),
        grid.len() <= usize::MAX,
    ensures
        ({
            let at = acting_caret(caret, row, col);
            let cells = grid[row as int];
            let k = chars_before(cells[col as int], at.2 as nat);
            let kept = grid.update(row as int, cells.take(col as int).push(cells[col as int].take(k)));
            let lower = seq![cells[col as int].skip(k)] + cells.skip(col + 1);
            let created = row_created(kept, caret, row, lower);
            &&& created.grid == split_grid(grid, row as int, col as int, at.2 as nat)
            &&& created.caret == Some(((row + 1) as usize, 0usize, 0usize))
        }),
{
    let at = acting_caret(caret, row, col);
    let cells = grid[row as int];
    let k = chars_before(cells[col as int], at.2 as nat);
    let kept = grid.update(row as int, cells.take(col as int).push(cells[col as int].take(k)));
    let lower = seq![cells[col as int].skip(k)] + cells.skip(col + 1);
    assert(kept.insert(row + 1, lower) =~= split_grid(grid, row as int, col as int, at.2 as nat));
}

/// Merging a row into the row above it and then deleting it, as the two
/// entries that the Backspace key hands out do, amounts to merging the rows.
pub proof fn lemma_absorb_then_delete_row(grid: Grid, caret: Option<Caret>, row: usize, id: Seq<char>)
    requires
        can_merge(grid, row as int),
    ensures
        ({
            let absorbed = row_absorbed(grid, caret, (row - 1) as usize);
            let deleted = delete_row_outcome(
                absorbed.grid,
                absorbed.caret,
                id,
                Some(decimal(row as nat)),
            );
            &&& deleted.grid == merged_grid(grid, row as int)
            &&& deleted.caret == Some(
                (
                    (row - 1) as usize,
                    (grid[row - 1].len() - 1) as usize,
                    byte_len(grid[row - 1].last()) as usize,
                ),
            )
        }),
{
    lemma_parse_decimal(row);
}

/// `delete_row` is none of the operations that the queue looks for before
/// it.
proof fn lemma_delete_row_is_no_other()
    ensures
        "delete_row"@ != "update_text"@,
        "delete_row"@ != "update_text_cursor"@,
{
    reveal_strlit("delete_row");
    reveal_strlit("update_text");
    reveal_strlit("update_text_cursor");
    assert("delete_row"@.len() == 10);
    assert("update_text"@.len() == 11);
    assert("update_text_cursor"@.len() == 18);
}

/// `update_row` is neither of the two operations of its length that the
/// queue looks for before it.
proof fn lemma_update_row_is_no_other_row()
    ensures
        "update_row"@ != "delete_row"@,
        "update_row"@ != "create_row"@,
{
    reveal_strlit("update_row");
    reveal_strlit("delete_row");
    reveal_strlit("create_row");
    assert("update_row"@[0] == 'u');
    assert("delete_row"@[0] == 'd');
    assert("create_row"@[0] == 'c');
}

/// `update_row` is none of the longer operations that the queue looks for
/// before it.
proof fn lemma_update_row_is_no_longer()
    ensures
        "update_row"@ != "update_text"@,
        "update_row"@ != "update_text_cursor"@,
        "update_row"@ != "internal_process"@,
        "update_row"@ != "focus_element"@,
        "update_row"@ != "delete_element"@,
        "update_row"@ != "create_cell"@,
{
    reveal_strlit("update_row");
    assert("update_row"@.len() == 10);
    assert("update_text"@.len() == 11) by {
        reveal_strlit("update_text");
    }
    assert("update_text_cursor"@.len() == 18) by {
        reveal_strlit("update_text_cursor");
    }
    assert("internal_process"@.len() == 16) by {
        reveal_strlit("internal_process");
    }
    assert("focus_element"@.len() == 13) by {
        reveal_strlit("focus_element");
    }
    assert("delete_element"@.len() == 14) by {
        reveal_strlit("delete_element");
    }
    assert("create_cell"@.len() == 11) by {
        reveal_strlit("create_cell");
    }
}

/// An entry that the editor writes to have the row below row `row` merged
/// into it is carried out as that merge, whatever text follows the bar.
pub proof fn lemma_update_row_entry_is_carried_out(
    grid: Grid,
    caret: Option<Caret>,
    row: usize,
    id: Seq<char>,
    rest: Seq<char>,
)
    ensures
        outcome(grid, caret, ("update_row"@, id, Some(decimal(row as nat) + "|"@ + rest)))
            == row_absorbed(grid, caret, row),
{
    lemma_update_row_is_no_other_row();
    lemma_update_row_is_no_longer();
    reveal_strlit("|");
    let above = decimal(row as nat);
    assert("|"@ =~= seq!['|']);
    assert(above + "|"@ + rest =~= above + seq!['|'] + rest);
    lemma_decimal_without(row as nat, '|');
    lemma_cut_at_first_sep(above, rest, '|');
    lemma_parse_decimal(row);
}

/// An entry that the editor writes to have row `row` deleted is carried out
/// as that deletion.
pub proof fn lemma_delete_row_entry_is_carried_out(
    grid: Grid,
    caret: Option<Caret>,
    row: usize,
    id: Seq<char>,
)
    ensures
        outcome(grid, caret, ("delete_row"@, id, Some(decimal(row as nat)))) == delete_row_outcome(
            grid,
            caret,
            id,
            Some(decimal(row as nat)),
        ),
{
    lemma_delete_row_is_no_other();
}

/// The Backspace key at the start of a row, carried out, merges the row
/// into the row above it: where the key hands out work, the two entries,
/// carried out one after the other, leave the merged grid, with the caret
/// where the rows meet.
pub proof fn lemma_backspace_merge_is_carried_out(grid: Grid, caret: Option<Caret>, row: usize)
    requires
        acting_caret(caret, row, 0).2 == 0,
        can_merge(grid, row as int),
    ensures
        ({
            let work = backspace_effects(grid, caret, row, 0);
            &&& work.len() == 2
            &&& work[0] matches Effect::Queue(first)
            &&& work[1] matches Effect::Queue(second)
            &&& ({
                let absorbed = outcome(grid, caret, first);
                let deleted = outcome(absorbed.grid, absorbed.caret, second);
                &&& deleted.grid == merged_grid(grid, row as int)
                &&& deleted.caret == Some(
                    (
                        (row - 1) as usize,
                        (grid[row - 1].len() - 1) as usize,
                        byte_len(grid[row - 1].last()) as usize,
                    ),
                )
            })
        }),
{
    let json = json_of_row(grid[row - 1] + grid[row as int]);
    let above = (row - 1) as usize;
    let absorbed = row_absorbed(grid, caret, above);
    lemma_update_row_entry_is_carried_out(grid, caret, above, row_id(above as nat), json);
    lemma_delete_row_entry_is_carried_out(
        absorbed.grid,
        absorbed.caret,
        row,
        row_id(row as nat),
    );
    lemma_absorb_then_delete_row(grid, caret, row, row_id(row as nat));
}

/// No work.
fn nothing() -> (actions: Vec<Action>)
    ensures
        actions.deep_view() == Seq::<Effect>::empty(),
{
    let actions: Vec<Action> = Vec::new();
    assert(actions.deep_view() =~= Seq::<Effect>::empty());
    actions
}

/// One script to run.
fn only(script: String) -> (actions: Vec<Action>)
    ensures
        actions.deep_view() == seq![Effect::Eval(script@)],
{
    let mut actions = nothing();
    push_action(&mut actions, Action::Eval(script));
    assert(actions.deep_view() =~= seq![Effect::Eval(script@)]);
    actions
}

/// Carries out an `update_text` entry.
fn apply_update_text(editor: &mut EditorBuilder, id: &str, data: &Option<String>) -> (actions: Vec<
    Action,
>)
    ensures
        reaches(
            *final(editor),
            actions,
            update_text_outcome(old(editor).grid(), old(editor).state.caret_pos, id@, data_of(*data)),
        ),
        final(editor).state.text_width == old(editor).state.text_width,
{
    match data {
        Some(text) => match parse_cell_id(id) {
            Some((row, col, _)) => {
                let element = get_element_id(row, col);
                let script = make_clear_text_script(element.as_str(), text.as_str());
                editor.state.update_text(row, col, text.clone());
                only(script)
            },
            None => nothing(),
        },
        None => nothing(),
    }
}

/// Writes `new_text` into cell `(index_i, index_j)` and moves the caret to
/// the offset `cursor_pos` in it; the work handed back tells the page.
pub fn update_editor_text(
    editor: &mut EditorBuilder,
    index_i: usize,
    index_j: usize,
    cursor_pos: usize,
    new_text: String,
) -> (actions: Vec<Action>)
    ensures
        reaches(
            *final(editor),
            actions,
            text_written(old(editor).grid(), index_i, index_j, cursor_pos, new_text@),
        ),
        final(editor).state.text_width == old(editor).state.text_width,
{
    let length = text_len(new_text.as_str());
    let groups = length / 3;
    let padding: usize = if length % 3 > 0 {
        4
    } else {
        0
    };
    let actions = if groups <= (isize::MAX as usize) / 4 && groups * 4 + padding
        <= isize::MAX as usize {
        let encoded = text_to_base64(new_text.as_str());
        let element = get_element_id(index_i, index_j);
        only(make_positioned_text_script(element.as_str(), encoded.as_str(), cursor_pos))
    } else {
        nothing()
    };
    editor.state.update_text(index_i, index_j, new_text);
    editor.state.move_caret(index_i, index_j, cursor_pos);
    actions
}

/// Carries out an `update_text_cursor` entry.
fn apply_update_text_cursor(editor: &mut EditorBuilder, id: &str, data: &Option<String>) -> (actions:
    Vec<Action>)
    ensures
        reaches(
            *final(editor),
            actions,
            update_text_cursor_outcome(
                old(editor).grid(),
                old(editor).state.caret_pos,
                id@,
                data_of(*data),
            ),
        ),
        final(editor).state.text_width == old(editor).state.text_width,
{
    match data {
        Some(text) => match parse_cell_id(id) {
            Some((row, col, offset)) => update_editor_text(editor, row, col, offset, text.clone()),
            None => nothing(),
        },
        None => nothing(),
    }
}

/// Carries out a `delete_row` entry.
fn apply_delete_row(editor: &mut EditorBuilder, id: &str, data: &Option<String>) -> (actions: Vec<
    Action,
>)
    ensures
        reaches(
            *final(editor),
            actions,
            delete_row_outcome(old(editor).grid(), old(editor).state.caret_pos, id@, data_of(*data)),
        ),
        final(editor).state.text_width == old(editor).state.text_width,
{
    match data {
        Some(text) => {
            let chars = to_chars(text.as_str());
            match parse_usize(&chars) {
                Some(row) => {
                    let _ = editor.state.remove_row(row);
                    let mut actions = nothing();
                    push_rewrite_from(&mut actions, &editor.state.raw_text, row);
                    assert(actions.deep_view() =~= rewrite_from(editor.grid(), row as nat));
                    actions
                },
                None => nothing(),
            }
        },
        None => only(make_delete_row_script(id)),
    }
}

/// Carries out an `internal_process` entry.
fn apply_internal_process(editor: &EditorBuilder, data: &Option<String>) -> (actions: Vec<Action>)
    ensures
        reaches(
            *editor,
            actions,
            internal_process_outcome(editor.grid(), editor.state.caret_pos, data_of(*data)),
        ),
{
    match data {
        Some(text) => {
            let chars = to_chars(text.as_str());
            match parse_bool(&chars) {
                Some(on) => {
                    let mut actions = nothing();
                    push_action(&mut actions, Action::SetInternal(on));
                    assert(actions.deep_view() =~= seq![Effect::SetInternal(on)]);
                    actions
                },
                None => nothing(),
            }
        },
        None => nothing(),
    }
}

/// Carries out a `focus_element` entry.
fn apply_focus_element(editor: &EditorBuilder, data: &Option<String>) -> (actions: Vec<Action>)
    ensures
        reaches(
            *editor,
            actions,
            focus_element_outcome(editor.grid(), editor.state.caret_pos, data_of(*data)),
        ),
{
    match data {
        Some(text) => match parse_cell_id(text.as_str()) {
            Some((row, col, offset)) => {
                let element = get_element_id(row, col);
                let mut actions = only(make_focus_script(element.as_str(), offset));
                push_action(&mut actions, Action::ReadCaret(row, col));
                assert(actions.deep_view() =~= seq![
                    Effect::Eval(focus_script(element_id(row as nat, col as nat), offset as nat)),
                    Effect::ReadCaret(row, col),
                ]);
                actions
            },
            None => nothing(),
        },
        None => nothing(),
    }
}

/// Puts the row `cells` in below row `index_i`, moves the caret to the
/// start of the new row, and has the rows from there on written into the
/// page again. Nothing happens where the grid has no row `index_i`.
pub fn create_row_with(editor: &mut EditorBuilder, index_i: usize, cells: Vec<String>) -> (actions:
    Vec<Action>)
    ensures
        reaches(
            *final(editor),
            actions,
            row_created(
                old(editor).grid(),
                old(editor).state.caret_pos,
                index_i,
                cells.deep_view(),
            ),
        ),
        final(editor).state.text_width == old(editor).state.text_width,
{
    if index_i < editor.state.raw_text.len() {
        let _ = editor.state.insert_row(index_i + 1, cells);
        editor.state.move_caret(index_i + 1, 0, 0);
        let mut actions = nothing();
        push_rewrite_from(&mut actions, &editor.state.raw_text, index_i + 1);
        assert(actions.deep_view() =~= rewrite_from(editor.grid(), (index_i + 1) as nat));
        actions
    } else {
        nothing()
    }
}

/// Carries out a `create_row` entry.
fn apply_create_row(editor: &mut EditorBuilder, id: &str, data: &Option<String>) -> (actions: Vec<
    Action,
>)
    ensures
        reaches(
            *final(editor),
            actions,
            create_row_outcome(old(editor).grid(), old(editor).state.caret_pos, id@, data_of(*data)),
        ),
        final(editor).state.text_width == old(editor).state.text_width,
{
    match data {
        Some(text) => match parse_row_data(text.as_str()) {
            Some((row, _, json)) => match json_to_row(json.as_str()) {
                Some(cells) => create_row_with(editor, row, cells),
                None => nothing(),
            },
            None => nothing(),
        },
        None => only(make_create_row_script(id)),
    }
}

/// Carries out a `delete_element` entry.
fn apply_delete_element(editor: &mut EditorBuilder, id: &str, data: &Option<String>) -> (actions: Vec<
    Action,
>)
    ensures
        reaches(
            *final(editor),
            actions,
            delete_element_outcome(
                old(editor).grid(),
                old(editor).state.caret_pos,
                id@,
                data_of(*data),
            ),
        ),
        final(editor).state.text_width == old(editor).state.text_width,
{
    let actions = only(make_delete_element_script(id));
    match data {
        Some(text) => match parse_cell(text.as_str()) {
            Some((row, col)) => {
                let _ = editor.state.remove_cell(row, col);
            },
            None => {},
        },
        None => {},
    }
    actions
}

/// Carries out a `create_cell` entry.
fn apply_create_cell(editor: &mut EditorBuilder, id: &str, data: &Option<String>) -> (actions: Vec<
    Action,
>)
    ensures
        reaches(
            *final(editor),
            actions,
            create_cell_outcome(
                old(editor).grid(),
                old(editor).state.caret_pos,
                id@,
                data_of(*data),
            ),
        ),
        final(editor).state.text_width == old(editor).state.text_width,
{
    match data {
        Some(text) => {
            let chars = to_chars(text.as_str());
            let parts = split_fields(&chars, ',');
            if parts.len() < 5 {
                return nothing();
            }
            assert(parts.deep_view()[0] =~= parts[0]@);
            assert(parts.deep_view()[1] =~= parts[1]@);
            assert(parts.deep_view()[2] =~= parts[2]@);
            assert(parts.deep_view()[3] =~= parts[3]@);
            assert(parts.deep_view()[4] =~= parts[4]@);
            match (parse_usize(&parts[0]), parse_usize(&parts[1])) {
                (Some(row), Some(col)) => {
                    let row_element = from_chars(&parts[2], 0, parts[2].len());
                    let content = from_chars(&parts[3], 0, parts[3].len());
                    let style = from_chars(&parts[4], 0, parts[4].len());
                    assert(row_element@ =~= parts[2]@);
                    assert(content@ =~= parts[3]@);
                    assert(style@ =~= parts[4]@);
                    let script = make_create_cell_script(
                        id,
                        row_element.as_str(),
                        content.as_str(),
                        style.as_str(),
                    );
                    let caret = editor.state.caret_pos;
                    if row < usize::MAX {
                        pad_rows(&mut editor.state.raw_text, row + 1);
                    }
                    let ghost grown = editor.grid();
                    editor.state.update_text(row, col, content);
                    proof {
                        lemma_with_text_grows_and_keeps(grown, row as nat, col as nat, content@);
                        assert(editor.grid().len() == editor.state.raw_text.len());
                    }
                    editor.state.caret_pos = caret;
                    only(script)
                },
                _ => nothing(),
            }
        },
        None => nothing(),
    }
}

/// Merges the row below row `index_i` into it, moves the caret to where the
/// rows meet, has the row written into the page again and the cell of the
/// caret given the focus. Nothing happens where the rows cannot be merged.
pub fn absorb_row_below(editor: &mut EditorBuilder, index_i: usize) -> (actions: Vec<Action>)
    ensures
        reaches(
            *final(editor),
            actions,
            row_absorbed(old(editor).grid(), old(editor).state.caret_pos, index_i),
        ),
        final(editor).state.text_width == old(editor).state.text_width,
{
    assert(editor.grid().len() == editor.state.raw_text.len());
    if index_i == usize::MAX {
        return nothing();
    }
    if editor.state.absorb_row(index_i + 1) {
        assert(editor.grid().len() == editor.state.raw_text.len());
        let mut actions = nothing();
        push_row_rewrite(&mut actions, &editor.state.raw_text, index_i);
        match editor.state.caret_pos {
            Some((row, col, offset)) => {
                push_action(&mut actions, Action::Focus(row, col, offset));
            },
            None => {},
        }
        assert(actions.deep_view() =~= row_absorbed(
            old(editor).grid(),
            old(editor).state.caret_pos,
            index_i,
        ).effects);
        actions
    } else {
        nothing()
    }
}

/// Carries out an `update_row` entry.
fn apply_update_row(editor: &mut EditorBuilder, data: &Option<String>) -> (actions: Vec<Action>)
    ensures
        reaches(
            *final(editor),
            actions,
            update_row_outcome(old(editor).grid(), old(editor).state.caret_pos, data_of(*data)),
        ),
        final(editor).state.text_width == old(editor).state.text_width,
{
    match data {
        Some(text) => {
            let chars = to_chars(text.as_str());
            match cut_chars(&chars, '|') {
                Some((row, _)) => match parse_usize(&row) {
                    Some(row) => absorb_row_below(editor, row),
                    None => nothing(),
                },
                None => nothing(),
            }
        },
        None => nothing(),
    }
}

/// Whether `text` is the word `word`.
fn is_word(text: &String, word: &str) -> (same: bool)
    ensures
        same == (text@ == word@),
{
    let other = String::from_str(word);
    *text == other
}

/// Carries out the entry `update` of the queue on the document and hands
/// back the work in the page that the entry calls for.
pub fn apply_update(editor: &mut EditorBuilder, update: &DomUpdate) -> (actions: Vec<Action>)
    ensures
        reaches(
            *final(editor),
            actions,
            outcome(old(editor).grid(), old(editor).state.caret_pos, update@),
        ),
        final(editor).state.text_width == old(editor).state.text_width,
{
    let operation = &update.operation;
    let id = update.id.as_str();
    let data = &update.data;
    if is_word(operation, "update_text") {
        apply_update_text(editor, id, data)
    } else if is_word(operation, "update_text_cursor") {
        apply_update_text_cursor(editor, id, data)
    } else if is_word(operation, "delete_row") {
        apply_delete_row(editor, id, data)
    } else if is_word(operation, "internal_process") {
        apply_internal_process(editor, data)
    } else if is_word(operation, "focus_element") {
        apply_focus_element(editor, data)
    } else if is_word(operation, "create_row") {
        apply_create_row(editor, id, data)
    } else if is_word(operation, "delete_element") {
        apply_delete_element(editor, id, data)
    } else if is_word(operation, "create_cell") {
        apply_create_cell(editor, id, data)
    } else if is_word(operation, "update_row") {
        apply_update_row(editor, data)
    } else {
        nothing()
    }
}

} // verus!
