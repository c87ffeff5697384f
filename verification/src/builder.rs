//! The editor: the document behind its operations, and the conversion of a
//! caret between the grid and a flat offset within its row.

use vstd::prelude::*;
use crate::state::{clamped_caret, is_cell, with_text, Caret, Grid, State};
use crate::strings::{byte_len, text_len};

verus! {

/// The editor. It owns the document.
pub struct EditorBuilder {
    /// The document.
    pub state: State,
}

/// The number of bytes in all the texts of `cells`.
pub open spec fn cells_len(cells: Seq<Seq<char>>) -> nat
    decreases cells.len(),
{
    if cells.len() == 0 {
        0
    } else {
        cells_len(cells.drop_last()) + byte_len(cells.last())
    }
}

/// The offset of a caret within its row: the bytes of all the cells before
/// the caret's column, and the caret's offset in its cell.
pub open spec fn flat_offset(row: Seq<Seq<char>>, col: nat, offset: nat) -> nat {
    cells_len(row.take(col as int)) + offset
}

/// The flat offset of `caret` in `grid`, where there is one: the caret's row
/// is a row of the grid, its column is a column of that row or the end of the
/// row, and the offset is a `usize`.
pub open spec fn row_level_pos(grid: Grid, caret: Option<Caret>) -> Option<usize> {
    match caret {
        Some((row, col, offset)) => if row < grid.len() && col <= grid[row as int].len()
            && flat_offset(grid[row as int], col as nat, offset as nat) <= usize::MAX {
            Some(flat_offset(grid[row as int], col as nat, offset as nat) as usize)
        } else {
            None
        },
        None => None,
    }
}

/// Where in `cells` the flat offset `remaining` falls, the cells before
/// column `col` having been passed: in the first cell from `col` on that is
/// longer than what remains, one byte after the remaining offset; or, past
/// the last cell, at the end of the last cell. A row without cells holds no
/// place.
pub open spec fn locate_from(cells: Seq<Seq<char>>, col: nat, remaining: nat) -> Option<(nat, nat)>
    decreases cells.len() - col,
{
    if col >= cells.len() {
        if cells.len() == 0 {
            None
        } else {
            Some(((cells.len() - 1) as nat, byte_len(cells.last())))
        }
    } else if remaining < byte_len(cells[col as int]) {
        Some((col, remaining + 1))
    } else {
        locate_from(cells, col + 1, (remaining - byte_len(cells[col as int])) as nat)
    }
}

/// The column and the offset in `cells` of the flat offset `pos`.
pub open spec fn locate(cells: Seq<Seq<char>>, pos: nat) -> Option<(nat, nat)> {
    locate_from(cells, 0, pos)
}

impl std::ops::Deref for EditorBuilder {
    type Target = State;

    fn deref(&self) -> (state: &State)
        ensures
            *state == self.state,
    {
        &self.state
    }
}

impl std::ops::DerefMut for EditorBuilder {
    fn deref_mut(&mut self) -> (state: &mut State)
        ensures
            *state == old(self).state,
            final(self).state == *final(state),
    {
        &mut self.state
    }
}

impl EditorBuilder {
    /// The grid of cell texts.
    pub open spec fn grid(&self) -> Grid {
        self.state.grid()
    }

    /// An editor for the document `state`.
    pub fn new(state: State) -> (editor: Self)
        ensures
            editor.state == state,
    {
        Self { state }
    }

    /// The text of every cell, row by row.
    pub fn get_raw_text_vec(&self) -> (grid: &Vec<Vec<String>>)
        ensures
            *grid == self.state.raw_text,
    {
        &self.state.raw_text
    }

    /// The text of the cell that the caret is in, or the word `error` when
    /// no cell of the grid has the focus.
    pub fn get_raw_text_current(&self) -> (text: String)
        ensures
            text@ == match self.state.caret_pos {
                Some((row, col, _)) => if is_cell(self.grid(), row as int, col as int) {
                    self.grid()[row as int][col as int]
                } else {
                    "error"@
                },
                None => "error"@,
            },
    {
        if let Some((index_i, index_j, _)) = self.state.caret_pos {
            if index_i < self.state.raw_text.len() && index_j < self.state.raw_text[index_i].len() {
                return self.state.raw_text[index_i][index_j].clone();
            }
        }
        "error".to_string()
    }

    /// Sets the text of a cell, as [`State::update_text`] does.
    pub fn update_text(&mut self, index_i: usize, index_j: usize, text: String)
        ensures
            final(self).grid() == with_text(old(self).grid(), index_i as nat, index_j as nat, text@),
            final(self).state.caret_pos == clamped_caret(
                old(self).state.caret_pos,
                index_i,
                index_j,
                text@,
            ),
            final(self).state.text_width == old(self).state.text_width,
            old(self).state.wf() ==> final(self).state.wf(),
    {
        self.state.update_text(index_i, index_j, text);
    }

    /// Moves the caret, as [`State::move_caret`] does.
    pub fn move_caret(&mut self, index_i: usize, index_j: usize, char_pos: usize)
        ensures
            final(self).state.caret_pos == if is_cell(
                old(self).grid(),
                index_i as int,
                index_j as int,
            ) {
                Some((index_i, index_j, char_pos))
            } else {
                None
            },
            final(self).state.raw_text == old(self).state.raw_text,
            final(self).state.text_width == old(self).state.text_width,
            final(self).state.wf(),
    {
        self.state.move_caret(index_i, index_j, char_pos);
    }

    /// Takes the focus from every cell.
    pub fn clear_caret(&mut self)
        ensures
            final(self).state.caret_pos is None,
            final(self).state.raw_text == old(self).state.raw_text,
            final(self).state.text_width == old(self).state.text_width,
            final(self).state.wf(),
    {
        self.state.clear_caret();
    }

    /// The caret.
    pub fn get_caret_pos(&self) -> (caret: Option<(usize, usize, usize)>)
        ensures
            caret == self.state.caret_pos,
    {
        self.state.caret_pos
    }

    /// The flat offset of `current_caret_pos` within its row.
    pub fn get_row_level_caret_pos(&self, current_caret_pos: Option<(usize, usize, usize)>) -> (pos:
        Option<usize>)
        ensures
            pos == row_level_pos(self.grid(), current_caret_pos),
    {
        if let Some((index_i, index_j, char_pos)) = current_caret_pos {
            if index_i >= self.state.raw_text.len() {
                return None;
            }
            let row = &self.state.raw_text[index_i];
            if index_j > row.len() {
                return None;
            }
            let ghost cells = row.deep_view();
            assert(cells == self.grid()[index_i as int]);
            let mut total_pos: usize = 0;
            let mut j: usize = 0;
            assert(cells.take(0) =~= Seq::<Seq<char>>::empty());
            while j < index_j
                invariant
                    j <= index_j <= row.len(),
                    index_i < self.grid().len(),
                    cells == self.grid()[index_i as int],
                    cells == row.deep_view(),
                    current_caret_pos == Some((index_i, index_j, char_pos)),
                    total_pos == cells_len(cells.take(j as int)),
                    cells_len(cells.take(j as int)) <= cells_len(cells.take(index_j as int)),
                decreases index_j - j,
            {
                proof {
                    assert(cells.take(j + 1).drop_last() =~= cells.take(j as int));
                    assert(cells.take(j + 1).last() == row[j as int]@);
                    assert(cells_len(cells.take(j + 1)) == total_pos + byte_len(row[j as int]@));
                    lemma_cells_len_monotonic(cells, j + 1, index_j as int);
                }
                match total_pos.checked_add(text_len(row[j].as_str())) {
                    Some(sum) => {
                        total_pos = sum;
                    },
                    None => {
                        return None;
                    },
                }
                j += 1;
            }
            total_pos.checked_add(char_pos)
        } else {
            None
        }
    }

    /// The caret in row `index_i` that stands at the flat offset
    /// `row_level_pos` of the cells `row`.
    pub fn get_caret_from_row_level_pos(&self, row_level_pos: usize, index_i: usize, row: Vec<String>) -> (caret:
        Option<(usize, usize, usize)>)
        ensures
            match locate(row.deep_view(), row_level_pos as nat) {
                Some((col, offset)) => caret == Some((index_i, col as usize, offset as usize))
                    && col < row.len() && offset <= usize::MAX,
                None => caret is None,
            },
    {
        let ghost cells = row.deep_view();
        let mut remaining_pos: usize = row_level_pos;
        let mut index_j: usize = 0;
        while index_j < row.len()
            invariant
                index_j <= row.len(),
                cells == row.deep_view(),
                locate(cells, row_level_pos as nat) == locate_from(
                    cells,
                    index_j as nat,
                    remaining_pos as nat,
                ),
            decreases row.len() - index_j,
        {
            let length = text_len(row[index_j].as_str());
            if remaining_pos < length {
                return Some((index_i, index_j, remaining_pos + 1));
            }
            remaining_pos -= length;
            index_j += 1;
        }
        if row.len() > 0 {
            let last_j = row.len() - 1;
            Some((index_i, last_j, text_len(row[last_j].as_str())))
        } else {
            None
        }
    }
}

/// Locating a flat offset that lies `offset` bytes into column `col` passes
/// over the cells before that column.
pub proof fn lemma_locate_skips_earlier_cells(cells: Seq<Seq<char>>, col: nat, offset: nat)
    requires
        col <= cells.len(),
    ensures
        locate(cells, flat_offset(cells, col, offset)) == locate_from(cells, col, offset),
{
    lemma_locate_from_skips(cells, 0, col, offset);
    assert(cells.take(0) =~= Seq::<Seq<char>>::empty());
}

/// Locating from column `from` passes over the cells from there up to
/// column `col`.
proof fn lemma_locate_from_skips(cells: Seq<Seq<char>>, from: nat, col: nat, offset: nat)
    requires
        from <= col <= cells.len(),
    ensures
        locate_from(
            cells,
            from,
            (cells_len(cells.take(col as int)) - cells_len(cells.take(from as int)) + offset) as nat,
        ) == locate_from(cells, col, offset),
        cells_len(cells.take(from as int)) <= cells_len(cells.take(col as int)),
    decreases col - from,
{
    lemma_cells_len_monotonic(cells, from as int, col as int);
    if from < col {
        lemma_cells_len_monotonic(cells, from as int + 1, col as int);
        assert(cells.take(from as int + 1).drop_last() =~= cells.take(from as int));
        assert(cells.take(from as int + 1).last() == cells[from as int]);
        lemma_locate_from_skips(cells, from + 1, col, offset);
    }
}

/// A caret inside a cell, flattened and located again in the same cells,
/// comes back in its column, one byte further to the right.
pub proof fn lemma_flatten_locate_inside_cell(grid: Grid, caret: Caret)
    requires
        is_cell(grid, caret.0 as int, caret.1 as int),
        caret.2 < byte_len(grid[caret.0 as int][caret.1 as int]),
        flat_offset(grid[caret.0 as int], caret.1 as nat, caret.2 as nat) <= usize::MAX,
    ensures
        row_level_pos(grid, Some(caret)) matches Some(pos) && locate(
            grid[caret.0 as int],
            pos as nat,
        ) == Some((caret.1 as nat, (caret.2 + 1) as nat)),
{
    lemma_locate_skips_earlier_cells(grid[caret.0 as int], caret.1 as nat, caret.2 as nat);
}

/// A caret at the end of the last cell of its row, flattened and located
/// again in the same cells, comes back where it was.
pub proof fn lemma_flatten_locate_at_row_end(grid: Grid, caret: Caret)
    requires
        is_cell(grid, caret.0 as int, caret.1 as int),
        caret.1 + 1 == grid[caret.0 as int].len(),
        caret.2 == byte_len(grid[caret.0 as int][caret.1 as int]),
        flat_offset(grid[caret.0 as int], caret.1 as nat, caret.2 as nat) <= usize::MAX,
    ensures
        row_level_pos(grid, Some(caret)) matches Some(pos) && locate(
            grid[caret.0 as int],
            pos as nat,
        ) == Some((caret.1 as nat, caret.2 as nat)),
{
    let cells = grid[caret.0 as int];
    lemma_locate_skips_earlier_cells(cells, caret.1 as nat, caret.2 as nat);
    assert(locate_from(cells, caret.1 as nat + 1, 0) == Some(
        ((cells.len() - 1) as nat, byte_len(cells.last())),
    ));
}

/// The cells up to a column are at most as long as the cells up to a later
/// column.
pub proof fn lemma_cells_len_monotonic(cells: Seq<Seq<char>>, a: int, b: int)
    requires
        0 <= a <= b <= cells.len(),
    ensures
        cells_len(cells.take(a)) <= cells_len(cells.take(b)),
    decreases b - a,
{
    if a < b {
        assert(cells.take(b).drop_last() =~= cells.take(b - 1));
        lemma_cells_len_monotonic(cells, a, b - 1);
    }
}

} // verus!
