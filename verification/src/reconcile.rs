//! Reconciliation: after an edit the grid is tokenized afresh, and where the
//! fresh rows differ from the grid the page is rewritten and the caret is
//! put back where it stood in its row.

use vstd::prelude::*;
use vstd::string::StringExecFns;
use crate::builder::{locate, row_level_pos, EditorBuilder};
use crate::dom::{cell_id, get_cell_id, push_action, push_queued, queued, Action, Effect};
use crate::offsets::lemma_byte_len_zero;
use crate::state::{padded, Caret, Grid};
use crate::strings::{byte_len, has_pair, lines, text_len};
use crate::syntax::model::{
    blank_rows, grid_source, grid_texts, lemma_tokenize_gives_rows, normalize, row_texts,
    tokenize, TextRun,
};
use crate::syntax::round_trip::{
    is_sound, lemma_concat_single, lemma_rows_hold_text, lemma_sound_rows_come_back,
    lemma_tokenize_gives_sound_rows,
};
use crate::syntax::text::{MarkDownElements, TextProcessor};

verus! {

/// The cells of `cells` that hold text.
pub open spec fn filled(cells: Seq<Seq<char>>) -> Seq<Seq<char>>
    decreases cells.len(),
{
    if cells.len() == 0 {
        Seq::empty()
    } else if cells.last().len() > 0 {
        filled(cells.drop_last()).push(cells.last())
    } else {
        filled(cells.drop_last())
    }
}

/// A row as it is tokenized afresh: a row of more than one cell without its
/// empty cells, or as one empty cell where all its cells are empty.
pub open spec fn tidy_row(cells: Seq<Seq<char>>) -> Seq<Seq<char>> {
    if cells.len() > 1 {
        if filled(cells).len() > 0 {
            filled(cells)
        } else {
            seq![Seq::empty()]
        }
    } else {
        cells
    }
}

/// The grid as it is tokenized afresh.
pub open spec fn tidy(grid: Grid) -> Grid {
    grid.map_values(|cells: Seq<Seq<char>>| tidy_row(cells))
}

/// The grid that the source of `grid` gives when it is tokenized.
pub open spec fn retokenized(grid: Grid) -> Grid {
    grid_texts(tokenize(grid_source(grid)))
}

/// Whether row `row` differs between the grids `stale` and `fresh`: one of
/// them has the row and the other has not, or both have it with other
/// cells.
pub open spec fn row_changed(stale: Grid, fresh: Grid, row: int) -> bool {
    if 0 <= row < stale.len() && row < fresh.len() {
        stale[row] != fresh[row]
    } else {
        0 <= row < stale.len() || 0 <= row < fresh.len()
    }
}

/// Whether any row differs between the grids `stale` and `fresh`.
pub open spec fn any_row_changed(stale: Grid, fresh: Grid) -> bool {
    exists|row: int| #[trigger] row_changed(stale, fresh, row)
}

/// The entries that empty the cells of row `row` from column `fresh` up to
/// column `stale`, from the last of them to the first.
pub open spec fn emptied_cells(row: usize, stale: nat, fresh: nat) -> Seq<Effect> {
    if stale > fresh {
        Seq::new(
            (stale - fresh) as nat,
            |k: int|
                queued("update_text"@, cell_id(row as nat, (stale - 1 - k) as nat, 0), Seq::empty()),
        )
    } else {
        Seq::empty()
    }
}

/// The work that writes the cells of a row of more than one cell: each cell
/// is written, with the caret at the end of its text, and measured.
pub open spec fn written_cells(row: usize, cells: Seq<Seq<char>>) -> Seq<Effect> {
    if cells.len() > 1 {
        Seq::new(
            2 * cells.len(),
            |k: int|
                if k % 2 == 0 {
                    queued(
                        "update_text"@,
                        cell_id(row as nat, (k / 2) as nat, byte_len(cells[k / 2])),
                        cells[k / 2],
                    )
                } else {
                    Effect::Measure(row, (k / 2) as usize, cells[k / 2])
                },
        )
    } else {
        Seq::empty()
    }
}

/// The work that puts the caret back into the fresh cells of its row: the
/// caret is flattened in the grid and located in the fresh cells; its cell
/// is written with the caret in it, measured, and given the focus.
pub open spec fn relocation(grid: Grid, caret: Caret, cells: Seq<Seq<char>>) -> Seq<Effect> {
    match row_level_pos(grid, Some(caret)) {
        Some(flat) => match locate(cells, flat as nat) {
            Some((col, offset)) => seq![
                queued(
                    "update_text_cursor"@,
                    cell_id(caret.0 as nat, col, offset),
                    cells[col as int],
                ),
                Effect::Measure(caret.0, col as usize, cells[col as int]),
                queued("focus_element"@, cell_id(caret.0 as nat, col, offset), Seq::empty()),
                Effect::Focus(caret.0, col as usize, offset as usize),
            ],
            None => Seq::empty(),
        },
        None => Seq::empty(),
    }
}

/// The work on the row of the caret, where that row has changed and its
/// fresh form holds a cell: the cells that the row no longer has are
/// emptied, the fresh cells are written, the editor's own rewriting is
/// declared over, and the caret is put back.
pub open spec fn caret_row_effects(grid: Grid, caret: Caret, stale: Grid, fresh: Grid) -> Seq<Effect> {
    let row = caret.0;
    if row_changed(stale, fresh, row as int) && row < fresh.len() && fresh[row as int].len() > 0 {
        let cells = fresh[row as int];
        (if row < grid.len() {
            emptied_cells(row, grid[row as int].len(), cells.len()) + written_cells(row, cells)
        } else {
            Seq::empty()
        }) + seq![queued("internal_process"@, Seq::empty(), "false"@)] + relocation(
            grid,
            caret,
            cells,
        )
    } else {
        Seq::empty()
    }
}

/// The cells of row `row` that hold text, each to be measured.
pub open spec fn measured_cells(row: usize, cells: Seq<Seq<char>>) -> Seq<Effect>
    decreases cells.len(),
{
    if cells.len() == 0 {
        Seq::empty()
    } else if cells.last().len() > 0 {
        measured_cells(row, cells.drop_last()).push(
            Effect::Measure(row, (cells.len() - 1) as usize, cells.last()),
        )
    } else {
        measured_cells(row, cells.drop_last())
    }
}

/// The cells of the first `rows` rows of `grid` that hold text, each to be
/// measured, row after row.
pub open spec fn measured_rows(grid: Grid, rows: nat) -> Seq<Effect>
    decreases rows,
{
    if rows == 0 || rows > grid.len() {
        Seq::empty()
    } else {
        measured_rows(grid, (rows - 1) as nat) + measured_cells(
            (rows - 1) as usize,
            grid[rows - 1],
        )
    }
}

/// The work that reconciliation calls for.
///
/// Nothing is to do where tokenizing the tidied grid afresh gives the
/// tidied grid back. Otherwise, with a caret, the editor declares that it
/// rewrites the page on its own account and works on the row of the caret;
/// with or without one, every cell of the grid that holds text is measured.
pub open spec fn reconcile_effects(grid: Grid, caret: Option<Caret>) -> Seq<Effect> {
    let stale = tidy(grid);
    let fresh = retokenized(stale);
    if any_row_changed(stale, fresh) {
        (match caret {
            Some(at) => seq![queued("internal_process"@, Seq::empty(), "true"@)]
                + caret_row_effects(grid, at, stale, fresh),
            None => Seq::empty(),
        }) + measured_rows(grid, grid.len())
    } else {
        Seq::empty()
    }
}

/// Cells that all hold text are all kept.
proof fn lemma_filled_keeps_texts(cells: Seq<Seq<char>>)
    requires
        forall|j: int| 0 <= j < cells.len() ==> (#[trigger] cells[j]).len() > 0,
    ensures
        filled(cells) == cells,
    decreases cells.len(),
{
    if cells.len() > 0 {
        assert forall|j: int| 0 <= j < cells.drop_last().len() implies (
        #[trigger] cells.drop_last()[j]).len() > 0 by {
            assert(cells.drop_last()[j] == cells[j]);
        }
        lemma_filled_keeps_texts(cells.drop_last());
        assert(cells.drop_last().push(cells.last()) =~= cells);
    }
}

/// A new document is reconciled: the grid of a tokenized source, padded to
/// any number of rows, calls for no work, wherever the caret is.
pub proof fn lemma_new_document_is_reconciled(input: Seq<char>, rows: nat, caret: Option<Caret>)
    ensures
        tidy(padded(grid_texts(tokenize(input)), rows)) == padded(grid_texts(tokenize(input)), rows),
        retokenized(padded(grid_texts(tokenize(input)), rows)) == padded(
            grid_texts(tokenize(input)),
            rows,
        ),
        reconcile_effects(padded(grid_texts(tokenize(input)), rows), caret) == Seq::<
            Effect,
        >::empty(),
{
    let told = tokenize(input);
    let grid = padded(grid_texts(told), rows);
    let more = if told.len() >= rows {
        0nat
    } else {
        (rows - told.len()) as nat
    };
    let all = told + blank_rows(more);
    assert(row_texts(seq![TextRun::Blank]) =~= seq![Seq::<char>::empty()]);
    lemma_concat_single(Seq::empty());
    assert(grid =~= grid_texts(all)) by {
        assert forall|k: int| 0 <= k < grid.len() implies grid[k] == grid_texts(all)[k] by {
            if k >= told.len() {
                assert(all[k] == seq![TextRun::Blank]);
            }
        }
    }
    lemma_tokenize_gives_rows(input);
    lemma_tokenize_gives_sound_rows(input);
    lemma_rows_hold_text(lines(normalize(input)), 0);
    assert(is_sound(seq![TextRun::Blank])) by {
        assert(!has_pair(Seq::<char>::empty(), '\\', 'n'));
    }
    assert forall|k: int| 0 <= k < all.len() implies is_sound(#[trigger] all[k]) by {
        if k < told.len() {
            assert(all[k] == told[k]);
        } else {
            assert(all[k] == seq![TextRun::Blank]);
        }
    }
    assert(all.last() == seq![TextRun::Blank]) by {
        if more == 0 {
            assert(all =~= told);
        }
    }
    lemma_sound_rows_come_back(all);
    assert(tidy(grid) =~= grid) by {
        assert forall|k: int| 0 <= k < grid.len() implies tidy_row(grid[k]) == grid[k] by {
            let cells = grid[k];
            if cells.len() > 1 {
                assert(cells == row_texts(all[k]));
                assert(k < told.len()) by {
                    if k >= told.len() {
                        assert(all[k] == seq![TextRun::Blank]);
                    }
                }
                assert forall|j: int| 0 <= j < cells.len() implies (#[trigger] cells[j]).len()
                    > 0 by {
                    assert(cells[j] == told[k][j].text());
                }
                lemma_filled_keeps_texts(cells);
            }
        }
    }
    assert(retokenized(grid) == grid);
    assert forall|row: int| !#[trigger] row_changed(grid, grid, row) by {}
}

/// The rows of cells that the source of `grid` gives when it is tokenized.
pub fn retokenize(grid: Vec<Vec<String>>) -> (rows: Vec<Vec<MarkDownElements>>)
    ensures
        rows.deep_view() == tokenize(grid_source(grid.deep_view())),
{
    let text_processor = TextProcessor::new();
    let source = text_processor.markdown_to_string(grid);
    text_processor.process_markdown(source)
}

/// The row `cells` as it is tokenized afresh.
fn tidy_cells(cells: &Vec<String>) -> (tidied: Vec<String>)
    ensures
        tidied.deep_view() == tidy_row(cells.deep_view()),
{
    let ghost shown = cells.deep_view();
    let mut tidied: Vec<String> = Vec::new();
    let mut k: usize = 0;
    assert(shown.take(0) =~= Seq::<Seq<char>>::empty());
    assert(tidied.deep_view() =~= Seq::<Seq<char>>::empty());
    while k < cells.len()
        invariant
            k <= cells.len(),
            shown == cells.deep_view(),
            cells.len() > 1 ==> tidied.deep_view() == filled(shown.take(k as int)),
            cells.len() <= 1 ==> tidied.deep_view() == shown.take(k as int),
        decreases cells.len() - k,
    {
        let ghost before = tidied.deep_view();
        assert(shown.take(k + 1).drop_last() =~= shown.take(k as int));
        assert(shown.take(k + 1).last() == cells[k as int]@);
        proof {
            lemma_byte_len_zero(cells[k as int]@);
        }
        if cells.len() <= 1 || text_len(cells[k].as_str()) > 0 {
            let text = cells[k].clone();
            tidied.push(text);
            assert(tidied.deep_view() =~= before.push(text@));
            assert(cells.len() <= 1 ==> tidied.deep_view() =~= shown.take(k + 1));
        }
        k += 1;
    }
    assert(shown.take(cells.len() as int) =~= shown);
    if cells.len() > 1 && tidied.len() == 0 {
        tidied.push(String::new());
        assert(tidied.deep_view() =~= seq![Seq::<char>::empty()]);
    }
    tidied
}

/// The grid as it is tokenized afresh.
fn tidy_grid(grid: &Vec<Vec<String>>) -> (tidied: Vec<Vec<String>>)
    ensures
        tidied.deep_view() == tidy(grid.deep_view()),
{
    let mut tidied: Vec<Vec<String>> = Vec::new();
    let mut i: usize = 0;
    while i < grid.len()
        invariant
            i <= grid.len(),
            tidied.len() == i,
            forall|k: int|
                0 <= k < i ==> (#[trigger] tidied[k]).deep_view() == tidy_row(
                    grid[k].deep_view(),
                ),
        decreases grid.len() - i,
    {
        tidied.push(tidy_cells(&grid[i]));
        i += 1;
    }
    assert(tidied.deep_view() =~= tidy(grid.deep_view()));
    tidied
}

/// A copy of `grid`.
fn copy_grid(grid: &Vec<Vec<String>>) -> (copy: Vec<Vec<String>>)
    ensures
        copy.deep_view() == grid.deep_view(),
{
    let mut copy: Vec<Vec<String>> = Vec::new();
    let mut i: usize = 0;
    while i < grid.len()
        invariant
            i <= grid.len(),
            copy.len() == i,
            forall|k: int| 0 <= k < i ==> (#[trigger] copy[k]).deep_view() == grid[k].deep_view(),
        decreases grid.len() - i,
    {
        let mut row: Vec<String> = Vec::new();
        let mut j: usize = 0;
        while j < grid[i].len()
            invariant
                i < grid.len(),
                j <= grid[i as int].len(),
                row.len() == j,
                forall|k: int| 0 <= k < j ==> (#[trigger] row[k])@ == grid[i as int][k]@,
            decreases grid[i as int].len() - j,
        {
            row.push(grid[i][j].clone());
            j += 1;
        }
        assert(row.deep_view() =~= grid[i as int].deep_view());
        copy.push(row);
        i += 1;
    }
    assert(copy.deep_view() =~= grid.deep_view());
    copy
}

/// Whether two rows hold the same cells.
fn same_cells(a: &Vec<String>, b: &Vec<String>) -> (same: bool)
    ensures
        same == (a.deep_view() == b.deep_view()),
{
    if a.len() != b.len() {
        assert(a.deep_view().len() != b.deep_view().len());
        return false;
    }
    let mut k: usize = 0;
    while k < a.len()
        invariant
            k <= a.len(),
            a.len() == b.len(),
            forall|j: int| 0 <= j < k ==> a[j]@ == b[j]@,
        decreases a.len() - k,
    {
        if a[k] != b[k] {
            assert(a.deep_view()[k as int] != b.deep_view()[k as int]);
            return false;
        }
        k += 1;
    }
    assert(a.deep_view() =~= b.deep_view());
    true
}

/// Whether row `row` differs between the grids `stale` and `fresh`.
fn is_row_changed(stale: &Vec<Vec<String>>, fresh: &Vec<Vec<String>>, row: usize) -> (changed: bool)
    ensures
        changed == row_changed(stale.deep_view(), fresh.deep_view(), row as int),
{
    if row < stale.len() && row < fresh.len() {
        !same_cells(&stale[row], &fresh[row])
    } else {
        row < stale.len() || row < fresh.len()
    }
}

/// Whether any row differs between the grids `stale` and `fresh`.
fn is_any_row_changed(stale: &Vec<Vec<String>>, fresh: &Vec<Vec<String>>) -> (changed: bool)
    ensures
        changed == any_row_changed(stale.deep_view(), fresh.deep_view()),
{
    let rows = if stale.len() > fresh.len() {
        stale.len()
    } else {
        fresh.len()
    };
    let mut row: usize = 0;
    while row < rows
        invariant
            row <= rows,
            rows >= stale.len(),
            rows >= fresh.len(),
            forall|k: int| 0 <= k < row ==> !row_changed(stale.deep_view(), fresh.deep_view(), k),
        decreases rows - row,
    {
        if is_row_changed(stale, fresh, row) {
            return true;
        }
        row += 1;
    }
    assert forall|k: int| !#[trigger] row_changed(stale.deep_view(), fresh.deep_view(), k) by {
        if 0 <= k < row {
        }
    }
    false
}

/// An empty text.
fn no_text() -> (text: String)
    ensures
        text@ == Seq::<char>::empty(),
{
    String::new()
}

/// Pushes [`emptied_cells`].
fn push_emptied_cells(actions: &mut Vec<Action>, row: usize, stale: usize, fresh: usize)
    ensures
        final(actions).deep_view() == old(actions).deep_view() + emptied_cells(
            row,
            stale as nat,
            fresh as nat,
        ),
{
    let ghost goal = emptied_cells(row, stale as nat, fresh as nat);
    let ghost first = actions.deep_view();
    if stale <= fresh {
        assert(actions.deep_view() =~= first + goal);
        return;
    }
    let mut k: usize = 0;
    assert(actions.deep_view() =~= first + goal.take(0));
    while k < stale - fresh
        invariant
            stale > fresh,
            k <= stale - fresh,
            goal == emptied_cells(row, stale as nat, fresh as nat),
            actions.deep_view() == first + goal.take(k as int),
        decreases stale - fresh - k,
    {
        push_queued(actions, "update_text", get_cell_id(row, stale - 1 - k, 0), no_text());
        assert(actions.deep_view() =~= first + goal.take(k + 1));
        k += 1;
    }
    assert(goal.take(goal.len() as int) =~= goal);
}

/// Pushes [`written_cells`].
fn push_written_cells(actions: &mut Vec<Action>, row: usize, cells: &Vec<String>)
    ensures
        final(actions).deep_view() == old(actions).deep_view() + written_cells(
            row,
            cells.deep_view(),
        ),
{
    let ghost shown = cells.deep_view();
    let ghost goal = written_cells(row, shown);
    let ghost first = actions.deep_view();
    if cells.len() <= 1 {
        assert(actions.deep_view() =~= first + goal);
        return;
    }
    let mut col: usize = 0;
    assert(actions.deep_view() =~= first + goal.take(0));
    while col < cells.len()
        invariant
            cells.len() > 1,
            col <= cells.len(),
            shown == cells.deep_view(),
            goal == written_cells(row, shown),
            actions.deep_view() == first + goal.take(2 * col),
        decreases cells.len() - col,
    {
        let text = cells[col].clone();
        push_queued(actions, "update_text", get_cell_id(row, col, text_len(text.as_str())), text.clone());
        push_action(actions, Action::Measure(row, col, text));
        assert(goal[2 * col] == queued(
            "update_text"@,
            cell_id(row as nat, col as nat, byte_len(shown[col as int])),
            shown[col as int],
        ));
        assert(goal[2 * col + 1] == Effect::Measure(row, col, shown[col as int]));
        assert(actions.deep_view() =~= first + goal.take(2 * (col + 1)));
        col += 1;
    }
    assert(goal.take(goal.len() as int) =~= goal);
}

/// Pushes [`relocation`].
fn push_relocation(
    actions: &mut Vec<Action>,
    editor: &EditorBuilder,
    caret: (usize, usize, usize),
    cells: &Vec<String>,
)
    ensures
        final(actions).deep_view() == old(actions).deep_view() + relocation(
            editor.grid(),
            caret,
            cells.deep_view(),
        ),
{
    let ghost first = actions.deep_view();
    let ghost goal = relocation(editor.grid(), caret, cells.deep_view());
    match editor.get_row_level_caret_pos(Some(caret)) {
        Some(flat) => {
            let mut copy: Vec<String> = Vec::new();
            let mut k: usize = 0;
            while k < cells.len()
                invariant
                    k <= cells.len(),
                    copy.len() == k,
                    forall|j: int| 0 <= j < k ==> (#[trigger] copy[j])@ == cells[j]@,
                decreases cells.len() - k,
            {
                copy.push(cells[k].clone());
                k += 1;
            }
            assert(copy.deep_view() =~= cells.deep_view());
            match editor.get_caret_from_row_level_pos(flat, caret.0, copy) {
                Some((row, col, offset)) => {
                    let text = cells[col].clone();
                    push_queued(
                        actions,
                        "update_text_cursor",
                        get_cell_id(row, col, offset),
                        text.clone(),
                    );
                    push_action(actions, Action::Measure(row, col, text));
                    push_queued(actions, "focus_element", get_cell_id(row, col, offset), no_text());
                    push_action(actions, Action::Focus(row, col, offset));
                    assert(actions.deep_view() =~= first + goal);
                },
                None => {
                    assert(actions.deep_view() =~= first + goal);
                },
            }
        },
        None => {
            assert(actions.deep_view() =~= first + goal);
        },
    }
}

/// Pushes [`measured_cells`].
fn push_measured_cells(actions: &mut Vec<Action>, row: usize, cells: &Vec<String>)
    ensures
        final(actions).deep_view() == old(actions).deep_view() + measured_cells(
            row,
            cells.deep_view(),
        ),
{
    let ghost shown = cells.deep_view();
    let ghost first = actions.deep_view();
    let mut col: usize = 0;
    assert(shown.take(0) =~= Seq::<Seq<char>>::empty());
    assert(actions.deep_view() =~= first + measured_cells(row, shown.take(0)));
    while col < cells.len()
        invariant
            col <= cells.len(),
            shown == cells.deep_view(),
            actions.deep_view() == first + measured_cells(row, shown.take(col as int)),
        decreases cells.len() - col,
    {
        assert(shown.take(col + 1).drop_last() =~= shown.take(col as int));
        assert(shown.take(col + 1).last() == cells[col as int]@);
        proof {
            lemma_byte_len_zero(cells[col as int]@);
        }
        if text_len(cells[col].as_str()) > 0 {
            push_action(actions, Action::Measure(row, col, cells[col].clone()));
        }
        assert(actions.deep_view() =~= first + measured_cells(row, shown.take(col + 1)));
        col += 1;
    }
    assert(shown.take(cells.len() as int) =~= shown);
}

/// Pushes [`measured_rows`].
fn push_measured_rows(actions: &mut Vec<Action>, grid: &Vec<Vec<String>>)
    ensures
        final(actions).deep_view() == old(actions).deep_view() + measured_rows(
            grid.deep_view(),
            grid.len() as nat,
        ),
{
    let ghost shown = grid.deep_view();
    let ghost first = actions.deep_view();
    let mut row: usize = 0;
    assert(actions.deep_view() =~= first + measured_rows(shown, 0));
    while row < grid.len()
        invariant
            row <= grid.len(),
            shown == grid.deep_view(),
            actions.deep_view() == first + measured_rows(shown, row as nat),
        decreases grid.len() - row,
    {
        push_measured_cells(actions, row, &grid[row]);
        assert(actions.deep_view() =~= first + measured_rows(shown, (row + 1) as nat));
        row += 1;
    }
}

/// Reconciles the page with the grid after an edit: tokenizes the tidied
/// grid afresh and hands back the work that the difference calls for. The
/// document itself changes only when the host carries the work out.
pub fn reconcile(editor: &EditorBuilder) -> (actions: Vec<Action>)
    ensures
        actions.deep_view() == reconcile_effects(editor.grid(), editor.state.caret_pos),
{
    let grid = &editor.state.raw_text;
    let mut actions: Vec<Action> = Vec::new();
    assert(actions.deep_view() =~= Seq::<Effect>::empty());
    let stale = tidy_grid(grid);
    let fresh = TextProcessor::new().extract_strings(retokenize(copy_grid(&stale)));
    assert(fresh.deep_view() == retokenized(tidy(editor.grid())));
    if !is_any_row_changed(&stale, &fresh) {
        return actions;
    }
    if let Some(caret) = editor.state.caret_pos {
        let row = caret.0;
        push_queued(&mut actions, "internal_process", no_text(), String::from_str("true"));
        let ghost begun = actions.deep_view();
        if is_row_changed(&stale, &fresh, row) && row < fresh.len() && fresh[row].len() > 0 {
            let cells = &fresh[row];
            assert(cells.deep_view() == fresh.deep_view()[row as int]);
            if row < grid.len() {
                push_emptied_cells(&mut actions, row, grid[row].len(), cells.len());
                push_written_cells(&mut actions, row, cells);
            }
            push_queued(&mut actions, "internal_process", no_text(), String::from_str("false"));
            push_relocation(&mut actions, editor, caret, cells);
            assert(actions.deep_view() =~= begun + caret_row_effects(
                editor.grid(),
                caret,
                stale.deep_view(),
                fresh.deep_view(),
            ));
        } else {
            assert(actions.deep_view() =~= begun + caret_row_effects(
                editor.grid(),
                caret,
                stale.deep_view(),
                fresh.deep_view(),
            ));
        }
    }
    push_measured_rows(&mut actions, grid);
    assert(actions.deep_view() =~= reconcile_effects(editor.grid(), editor.state.caret_pos));
    actions
}

} // verus!
