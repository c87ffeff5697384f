//! The document: the grid of cell texts that the editor edits, the caret, and
//! the measured widths of the cells.

use vstd::prelude::*;
use vstd::string::StringExecFns;
use crate::offsets::{chars_before, is_boundary, split_text};
use crate::strings::{byte_len, text_len};
use crate::syntax::model::{grid_texts, tokenize};
use crate::syntax::text::TextProcessor;

verus! {

/// A grid of cell texts: rows of cells.
pub type Grid = Seq<Seq<Seq<char>>>;

/// A caret: row, column, and byte offset within the cell.
pub type Caret = (usize, usize, usize);

/// The number of rows that a document with room to write in has at least.
pub const MIN_ROWS: usize = 20;

/// The document.
#[derive(Clone)]
pub struct State {
    /// The text of every cell, row by row.
    pub raw_text: Vec<Vec<String>>,
    /// Where the caret is; `None` when no cell has the focus.
    pub caret_pos: Option<(usize, usize, usize)>,
    /// The measured width of every cell, in whole pixels; `None` where a cell
    /// has not been measured.
    pub text_width: Vec<Vec<Option<usize>>>,
}

/// Whether `(row, col)` is a cell of `grid`.
pub open spec fn is_cell(grid: Grid, row: int, col: int) -> bool {
    0 <= row < grid.len() && 0 <= col < grid[row].len()
}

/// `grid` followed by rows of one empty cell each, as many as it takes to
/// have `n` rows.
pub open spec fn padded(grid: Grid, n: nat) -> Grid {
    if grid.len() >= n {
        grid
    } else {
        grid + Seq::new((n - grid.len()) as nat, |k: int| seq![Seq::<char>::empty()])
    }
}

/// `grid` followed by rows without cells, as many as it takes to have `n`
/// rows.
pub open spec fn with_rows(grid: Grid, n: nat) -> Grid {
    if grid.len() >= n {
        grid
    } else {
        grid + Seq::new((n - grid.len()) as nat, |k: int| Seq::<Seq<char>>::empty())
    }
}

/// `row` followed by empty cells, as many as it takes to have `n` cells.
pub open spec fn with_cells(row: Seq<Seq<char>>, n: nat) -> Seq<Seq<char>> {
    if row.len() >= n {
        row
    } else {
        row + Seq::new((n - row.len()) as nat, |k: int| Seq::<char>::empty())
    }
}

/// `grid` with the text of cell `(row, col)` set to `text`, the grid having
/// grown by empty rows and the row by empty cells until that cell exists.
pub open spec fn with_text(grid: Grid, row: nat, col: nat, text: Seq<char>) -> Grid {
    let rows = with_rows(grid, row + 1);
    rows.update(row as int, with_cells(rows[row as int], col + 1).update(col as int, text))
}

/// The caret after the text of cell `(row, col)` has been set to `text`: a
/// caret in that cell is pulled back to the end of the text if it stood
/// beyond it; any other caret stays.
pub open spec fn clamped_caret(caret: Option<Caret>, row: usize, col: usize, text: Seq<char>) -> Option<Caret> {
    match caret {
        Some((i, j, offset)) => if i == row && j == col && offset > byte_len(text) {
            Some((i, j, byte_len(text) as usize))
        } else {
            caret
        },
        None => None,
    }
}

/// Whether the cell `(row, col)` of `grid` can be split at the byte offset
/// `offset`: the cell exists and the offset is a boundary of its text.
pub open spec fn can_split(grid: Grid, row: int, col: int, offset: nat) -> bool {
    is_cell(grid, row, col) && is_boundary(grid[row][col], offset)
}

/// `grid` with row `row` split in the cell `col` at the byte offset
/// `offset`: the row keeps its cells up to `col`, that cell keeping the text
/// before the offset, and a new row right below it holds the text after the
/// offset and the cells that followed.
pub open spec fn split_grid(grid: Grid, row: int, col: int, offset: nat) -> Grid {
    let cells = grid[row];
    let k = chars_before(cells[col], offset);
    let upper = cells.take(col).push(cells[col].take(k));
    let lower = seq![cells[col].skip(k)] + cells.skip(col + 1);
    grid.take(row).push(upper).push(lower) + grid.skip(row + 1)
}

/// Whether row `row` of `grid` can be merged into the row above it: both
/// rows exist and the upper one holds a cell.
pub open spec fn can_merge(grid: Grid, row: int) -> bool {
    0 < row < grid.len() && grid[row - 1].len() > 0
}

/// The row `upper` with the row `lower` merged into it: the first cell of
/// `lower` is added to the text of the last cell of `upper`, and the other
/// cells of `lower` follow as cells of their own.
pub open spec fn merged_cells(upper: Seq<Seq<char>>, lower: Seq<Seq<char>>) -> Seq<Seq<char>> {
    if lower.len() == 0 {
        upper
    } else {
        upper.drop_last().push(upper.last() + lower[0]) + lower.skip(1)
    }
}

/// `grid` with row `row` merged into the row above it; row `row` itself
/// stays.
pub open spec fn absorbed_grid(grid: Grid, row: int) -> Grid {
    grid.update(row - 1, merged_cells(grid[row - 1], grid[row]))
}

/// `grid` with row `row` merged into the row above it and taken out.
pub open spec fn merged_grid(grid: Grid, row: int) -> Grid {
    absorbed_grid(grid, row).remove(row)
}

/// `widths` with the width of cell `(row, col)` set to `width`, the widths
/// having grown by rows of one unmeasured cell and the row by unmeasured
/// cells until they hold the cell.
pub open spec fn with_width(
    widths: Seq<Seq<Option<usize>>>,
    row: nat,
    col: nat,
    width: Option<usize>,
) -> Seq<Seq<Option<usize>>> {
    let rows = if widths.len() > row {
        widths
    } else {
        widths + Seq::new((row + 1 - widths.len()) as nat, |k: int| seq![None::<usize>])
    };
    let cells = if rows[row as int].len() > col {
        rows[row as int]
    } else {
        rows[row as int] + Seq::new(
            (col + 1 - rows[row as int].len()) as nat,
            |k: int| None::<usize>,
        )
    };
    rows.update(row as int, cells.update(col as int, width))
}

/// The measured width of cell `(row, col)` in `widths`; `None` where the
/// cell has not been measured or the widths do not hold it.
pub open spec fn width_in(widths: Seq<Seq<Option<usize>>>, row: int, col: int) -> Option<usize> {
    if 0 <= row < widths.len() && 0 <= col < widths[row].len() {
        widths[row][col]
    } else {
        None
    }
}

/// A grid of the shape of `grid` in which no cell has been measured.
pub open spec fn unmeasured(grid: Grid) -> Seq<Seq<Option<usize>>> {
    Seq::new(grid.len(), |i: int| Seq::new(grid[i].len(), |j: int| None::<usize>))
}

/// Setting the text of a cell makes that cell exist and hold the text, and
/// keeps every other cell that the grid had: the grid has its old rows or
/// just enough to hold the cell's row, that row has its old cells or just
/// enough to hold the cell, and no other row changes.
pub proof fn lemma_with_text_grows_and_keeps(grid: Grid, row: nat, col: nat, text: Seq<char>)
    ensures
        with_text(grid, row, col, text).len() == if grid.len() > row {
            grid.len()
        } else {
            row + 1
        },
        with_text(grid, row, col, text)[row as int].len() == if row < grid.len() && grid[row as int].len()
            > col {
            grid[row as int].len()
        } else {
            col + 1
        },
        with_text(grid, row, col, text)[row as int][col as int] == text,
        forall|r: int|
            0 <= r < grid.len() && r != row ==> #[trigger] with_text(grid, row, col, text)[r]
                == grid[r],
        forall|c: int|
            row < grid.len() && 0 <= c < grid[row as int].len() && c != col ==> #[trigger] with_text(
                grid,
                row,
                col,
                text,
            )[row as int][c] == grid[row as int][c],
{
}

/// Splitting a row and merging the new row back gives the grid back, with
/// the caret where the row was split.
pub proof fn lemma_split_then_merge(grid: Grid, row: int, col: int, offset: nat)
    requires
        can_split(grid, row, col, offset),
    ensures
        can_merge(split_grid(grid, row, col, offset), row + 1),
        merged_grid(split_grid(grid, row, col, offset), row + 1) == grid,
        split_grid(grid, row, col, offset)[row].len() - 1 == col,
        byte_len(split_grid(grid, row, col, offset)[row].last()) == offset,
{
    let cells = grid[row];
    let k = chars_before(cells[col], offset);
    let split = split_grid(grid, row, col, offset);
    let upper = cells.take(col).push(cells[col].take(k));
    let lower = seq![cells[col].skip(k)] + cells.skip(col + 1);
    assert(split[row] == upper);
    assert(split[row + 1] == lower);
    assert(cells[col].take(k) + cells[col].skip(k) =~= cells[col]);
    assert(merged_cells(upper, lower) =~= cells);
    assert(merged_grid(split, row + 1) =~= grid);
}

/// Adds rows of one empty cell each to `rows` until it has `n` rows.
pub fn pad_rows(rows: &mut Vec<Vec<String>>, n: usize)
    ensures
        final(rows).deep_view() == padded(old(rows).deep_view(), n as nat),
{
    let ghost shown = rows.deep_view();
    assert(rows.deep_view() =~= shown + Seq::new(0, |k: int| seq![Seq::<char>::empty()]));
    while rows.len() < n
        invariant
            shown == old(rows).deep_view(),
            rows.len() >= shown.len(),
            rows.len() > shown.len() ==> rows.len() <= n,
            rows.deep_view() == shown + Seq::new(
                (rows.len() - shown.len()) as nat,
                |k: int| seq![Seq::<char>::empty()],
            ),
        decreases n - rows.len(),
    {
        let ghost before = rows.deep_view();
        let row = vec![String::new()];
        assert(row.deep_view() =~= seq![Seq::<char>::empty()]);
        rows.push(row);
        assert(rows.deep_view() =~= before.push(seq![Seq::<char>::empty()]));
        assert(rows.deep_view() =~= shown + Seq::new(
            (rows.len() - shown.len()) as nat,
            |k: int| seq![Seq::<char>::empty()],
        ));
    }
}

impl State {
    /// The grid of cell texts.
    pub open spec fn grid(&self) -> Grid {
        self.raw_text.deep_view()
    }

    /// The measured widths, row by row.
    pub open spec fn widths(&self) -> Seq<Seq<Option<usize>>> {
        Seq::new(self.text_width.len() as nat, |i: int| self.text_width[i]@)
    }

    /// The caret, if there is one, stands in a cell of the grid.
    pub open spec fn wf(&self) -> bool {
        self.caret_pos matches Some((row, col, _)) ==> is_cell(self.grid(), row as int, col as int)
    }

    /// The caret that a document with the grid `grid` keeps of `caret`: the
    /// caret itself if it names a cell of the grid, and none otherwise.
    pub open spec fn kept_caret(grid: Grid, caret: Option<Caret>) -> Option<Caret> {
        match caret {
            Some((row, col, _)) => if is_cell(grid, row as int, col as int) {
                caret
            } else {
                None
            },
            None => None,
        }
    }

    /// A document with the cells `raw_text`, none of them measured. A caret
    /// that names no cell of the grid is not kept: the document begins
    /// without the focus, so that the caret of a document always stands in
    /// one of its cells.
    pub fn from_grid(raw_text: Vec<Vec<String>>, caret_pos: Option<(usize, usize, usize)>) -> (state:
        Self)
        ensures
            state.raw_text == raw_text,
            state.widths() == unmeasured(state.grid()),
            state.caret_pos == Self::kept_caret(state.grid(), caret_pos),
            state.wf(),
    {
        let mut text_width: Vec<Vec<Option<usize>>> = Vec::new();
        let mut i: usize = 0;
        while i < raw_text.len()
            invariant
                i <= raw_text.len(),
                text_width.len() == i,
                forall|k: int|
                    0 <= k < i ==> (#[trigger] text_width[k])@ == Seq::new(
                        raw_text[k].len() as nat,
                        |j: int| None::<usize>,
                    ),
            decreases raw_text.len() - i,
        {
            let mut widths: Vec<Option<usize>> = Vec::new();
            let mut j: usize = 0;
            while j < raw_text[i].len()
                invariant
                    i < raw_text.len(),
                    j <= raw_text[i as int].len(),
                    widths@ == Seq::new(j as nat, |j: int| None::<usize>),
                decreases raw_text[i as int].len() - j,
            {
                widths.push(None);
                assert(widths@ =~= Seq::new((j + 1) as nat, |j: int| None::<usize>));
                j += 1;
            }
            text_width.push(widths);
            i += 1;
        }
        let caret_pos = match caret_pos {
            Some((row, col, _)) => if row < raw_text.len() && col < raw_text[row].len() {
                caret_pos
            } else {
                None
            },
            None => None,
        };
        let state = Self { raw_text, caret_pos, text_width };
        assert(state.widths() =~= unmeasured(state.grid()));
        state
    }

    /// A document for the Markdown source `input_text`: its grid holds the
    /// texts of the tokenized rows, and nothing else; no cell has been
    /// measured.
    ///
    /// The caret is `caret_pos` as it is passed in if it names a cell of
    /// the grid. A caret that names no cell is dropped, and the document
    /// begins without the focus: the caret of a document always stands in
    /// one of its cells.
    pub fn new(input_text: String, caret_pos: Option<(usize, usize, usize)>) -> (state: Self)
        ensures
            state.grid() == grid_texts(tokenize(input_text@)),
            state.widths() == unmeasured(state.grid()),
            state.caret_pos == Self::kept_caret(state.grid(), caret_pos),
            state.wf(),
    {
        let text_processor = TextProcessor::new();
        let syntax_text = text_processor.process_markdown(input_text);
        Self::from_grid(text_processor.extract_strings(syntax_text), caret_pos)
    }

    /// A document for the Markdown source `input_text` with room to write
    /// in: the grid of [`State::new`], followed by rows of one empty cell
    /// each until it has [`MIN_ROWS`] rows. The caret is kept if it names a
    /// cell of that grid.
    pub fn new_padded(input_text: String, caret_pos: Option<(usize, usize, usize)>) -> (state: Self)
        ensures
            state.grid() == padded(grid_texts(tokenize(input_text@)), MIN_ROWS as nat),
            state.widths() == unmeasured(state.grid()),
            state.caret_pos == Self::kept_caret(state.grid(), caret_pos),
            state.wf(),
    {
        let text_processor = TextProcessor::new();
        let syntax_text = text_processor.process_markdown(input_text);
        let mut raw_text = text_processor.extract_strings(syntax_text);
        pad_rows(&mut raw_text, MIN_ROWS);
        Self::from_grid(raw_text, caret_pos)
    }

    /// Sets the text of cell `(index_i, index_j)`, growing the grid by empty
    /// rows and the row by empty cells until the cell exists. A caret in
    /// that cell is pulled back to the end of the new text if it stood beyond
    /// it.
    pub fn update_text(&mut self, index_i: usize, index_j: usize, text: String)
        ensures
            final(self).grid() == with_text(old(self).grid(), index_i as nat, index_j as nat, text@),
            final(self).caret_pos == clamped_caret(old(self).caret_pos, index_i, index_j, text@),
            final(self).text_width == old(self).text_width,
            old(self).wf() ==> final(self).wf(),
    {
        let ghost before = self.grid();
        let length = text_len(text.as_str());
        assert(self.raw_text.deep_view() =~= before + Seq::new(0, |k: int| Seq::<Seq<char>>::empty()));
        while index_i >= self.raw_text.len()
            invariant
                self.raw_text.len() >= before.len(),
                self.raw_text.len() > before.len() ==> self.raw_text.len() <= index_i + 1,
                self.raw_text.deep_view() == before + Seq::new(
                    (self.raw_text.len() - before.len()) as nat,
                    |k: int| Seq::<Seq<char>>::empty(),
                ),
                self.caret_pos == old(self).caret_pos,
                self.text_width == old(self).text_width,
            decreases index_i + 1 - self.raw_text.len(),
        {
            let ghost shown = self.raw_text.deep_view();
            let row: Vec<String> = Vec::new();
            assert(row.deep_view() =~= Seq::<Seq<char>>::empty());
            self.raw_text.push(row);
            assert(self.raw_text.deep_view() =~= shown.push(Seq::<Seq<char>>::empty()));
            assert(self.raw_text.deep_view() =~= before + Seq::new(
                (self.raw_text.len() - before.len()) as nat,
                |k: int| Seq::<Seq<char>>::empty(),
            ));
        }
        let ghost rows = self.raw_text.deep_view();
        assert(rows == with_rows(before, index_i as nat + 1));
        let ghost cells = rows[index_i as int];
        let mut row: Vec<String> = Vec::new();
        std::mem::swap(&mut row, &mut self.raw_text[index_i]);
        assert(row.deep_view() =~= cells + Seq::new(0, |k: int| Seq::<char>::empty()));
        while index_j >= row.len()
            invariant
                row.len() >= cells.len(),
                row.len() > cells.len() ==> row.len() <= index_j + 1,
                row.deep_view() == cells + Seq::new(
                    (row.len() - cells.len()) as nat,
                    |k: int| Seq::<char>::empty(),
                ),
            decreases index_j + 1 - row.len(),
        {
            let ghost shown = row.deep_view();
            row.push(String::new());
            assert(row.deep_view() =~= shown.push(Seq::<char>::empty()));
            assert(row.deep_view() =~= cells + Seq::new(
                (row.len() - cells.len()) as nat,
                |k: int| Seq::<char>::empty(),
            ));
        }
        assert(row.deep_view() == with_cells(cells, index_j as nat + 1));
        row[index_j] = text;
        assert(row.deep_view() =~= with_cells(cells, index_j as nat + 1).update(index_j as int, text@));
        self.raw_text[index_i] = row;
        assert(self.raw_text.deep_view() =~= rows.update(index_i as int, row.deep_view()));
        if let Some((caret_i, caret_j, caret_offset)) = self.caret_pos {
            if caret_i == index_i && caret_j == index_j && caret_offset > length {
                self.caret_pos = Some((caret_i, caret_j, length));
            }
        }
    }

    /// Cuts row `row` off after its first `len` cells. A row that has no
    /// more cells than that, or that does not exist, stays as it is.
    pub fn truncate_row(&mut self, row: usize, len: usize)
        ensures
            final(self).grid() == if row < old(self).grid().len() && len < old(self).grid()[row as int].len() {
                old(self).grid().update(row as int, old(self).grid()[row as int].take(len as int))
            } else {
                old(self).grid()
            },
            final(self).caret_pos == old(self).caret_pos,
            final(self).text_width == old(self).text_width,
    {
        if row < self.raw_text.len() && len < self.raw_text[row].len() {
            let ghost before = self.grid();
            let ghost rows = self.raw_text@;
            self.raw_text[row].truncate(len);
            assert(self.raw_text@ =~= rows.update(row as int, self.raw_text@[row as int]));
            assert(self.grid()[row as int] =~= before[row as int].take(len as int));
            assert forall|r: int| 0 <= r < before.len() && r != row implies self.grid()[r]
                == before[r] by {
                assert(self.raw_text@[r] == rows[r]);
            }
            assert(self.grid() =~= before.update(row as int, before[row as int].take(len as int)));
        } else {
            assert(self.grid() =~= old(self).grid());
        }
    }

    /// Puts the row `cells` in at index `at`, if `at` is a row of the grid
    /// or its end, and reports whether it did.
    pub fn insert_row(&mut self, at: usize, cells: Vec<String>) -> (done: bool)
        ensures
            done == (at <= old(self).grid().len()),
            final(self).grid() == if done {
                old(self).grid().insert(at as int, cells.deep_view())
            } else {
                old(self).grid()
            },
            final(self).caret_pos == old(self).caret_pos,
            final(self).text_width == old(self).text_width,
    {
        if at <= self.raw_text.len() {
            let ghost before = self.grid();
            self.raw_text.insert(at, cells);
            assert(self.grid() =~= before.insert(at as int, cells.deep_view()));
            true
        } else {
            false
        }
    }

    /// Takes row `at` out of the grid, if it exists, and reports whether it
    /// did.
    pub fn remove_row(&mut self, at: usize) -> (done: bool)
        ensures
            done == (at < old(self).grid().len()),
            final(self).grid() == if done {
                old(self).grid().remove(at as int)
            } else {
                old(self).grid()
            },
            final(self).caret_pos == old(self).caret_pos,
            final(self).text_width == old(self).text_width,
    {
        if at < self.raw_text.len() {
            let ghost before = self.grid();
            let _ = self.raw_text.remove(at);
            assert(self.grid() =~= before.remove(at as int));
            true
        } else {
            false
        }
    }

    /// Takes the cell `(row, col)` out of its row, if it exists, and
    /// reports whether it did.
    pub fn remove_cell(&mut self, row: usize, col: usize) -> (done: bool)
        ensures
            done == is_cell(old(self).grid(), row as int, col as int),
            final(self).grid() == if done {
                old(self).grid().update(row as int, old(self).grid()[row as int].remove(col as int))
            } else {
                old(self).grid()
            },
            final(self).caret_pos == old(self).caret_pos,
            final(self).text_width == old(self).text_width,
    {
        if row < self.raw_text.len() && col < self.raw_text[row].len() {
            let ghost before = self.grid();
            let ghost rows = self.raw_text@;
            let _ = self.raw_text[row].remove(col);
            assert(self.raw_text@ =~= rows.update(row as int, self.raw_text@[row as int]));
            assert(self.grid()[row as int] =~= before[row as int].remove(col as int));
            assert forall|r: int| 0 <= r < before.len() && r != row implies self.grid()[r]
                == before[r] by {
                assert(self.raw_text@[r] == rows[r]);
            }
            assert(self.grid() =~= before.update(
                row as int,
                before[row as int].remove(col as int),
            ));
            true
        } else {
            false
        }
    }

    /// Merges row `row` into the row above it, if it can be merged, and
    /// moves the caret to where the two rows meet: the last cell that the
    /// upper row had, at the end of the text it had. Row `row` itself stays
    /// in the grid. Reports whether it merged.
    pub fn absorb_row(&mut self, row: usize) -> (done: bool)
        ensures
            done == can_merge(old(self).grid(), row as int),
            final(self).grid() == if done {
                absorbed_grid(old(self).grid(), row as int)
            } else {
                old(self).grid()
            },
            final(self).caret_pos == if done {
                Some(
                    (
                        (row - 1) as usize,
                        (old(self).grid()[row - 1].len() - 1) as usize,
                        byte_len(old(self).grid()[row - 1].last()) as usize,
                    ),
                )
            } else {
                old(self).caret_pos
            },
            done ==> byte_len(old(self).grid()[row - 1].last()) <= usize::MAX,
            final(self).text_width == old(self).text_width,
    {
        if row == 0 || row >= self.raw_text.len() || self.raw_text[row - 1].len() == 0 {
            return false;
        }
        let ghost before = self.grid();
        let ghost upper = before[row - 1];
        let ghost lower = before[row as int];
        let col = self.raw_text[row - 1].len() - 1;
        let cursor_pos = text_len(self.raw_text[row - 1][col].as_str());
        let count = self.raw_text[row].len();
        let mut k: usize = 0;
        while k < count
            invariant
                0 < row < self.raw_text.len(),
                self.raw_text.len() == before.len(),
                count == lower.len(),
                k <= count,
                col + 1 == upper.len(),
                self.grid()[row as int] == lower,
                forall|r: int| 0 <= r < before.len() && r != row - 1 ==> self.grid()[r] == before[r],
                self.grid()[row - 1] == merged_cells(upper, lower.take(k as int)),
                self.caret_pos == old(self).caret_pos,
                self.text_width == old(self).text_width,
            decreases count - k,
        {
            let ghost shown = self.grid();
            let ghost rows = self.raw_text@;
            let text = self.raw_text[row][k].clone();
            assert(text@ == lower[k as int]);
            if k == 0 {
                assert(shown[row - 1] == upper);
                self.raw_text[row - 1][col].append(text.as_str());
                assert(self.raw_text@ =~= rows.update(row - 1, self.raw_text@[row - 1]));
                assert(lower.take(1).skip(1) =~= Seq::<Seq<char>>::empty());
                assert(self.grid()[row - 1] =~= upper.drop_last().push(upper.last() + lower[0]));
            } else {
                self.raw_text[row - 1].push(text);
                assert(self.raw_text@ =~= rows.update(row - 1, self.raw_text@[row - 1]));
                assert(lower.take(k + 1).skip(1) =~= lower.take(k as int).skip(1).push(
                    lower[k as int],
                ));
                assert(self.grid()[row - 1] =~= shown[row - 1].push(lower[k as int]));
            }
            assert(self.grid()[row - 1] =~= merged_cells(upper, lower.take(k + 1)));
            assert forall|r: int| 0 <= r < before.len() && r != row - 1 implies self.grid()[r]
                == before[r] by {
                assert(self.raw_text@[r] == rows[r]);
                assert(self.grid()[r] == shown[r]);
            }
            k += 1;
        }
        assert(lower.take(count as int) =~= lower);
        assert(self.grid() =~= absorbed_grid(before, row as int));
        self.caret_pos = Some((row - 1, col, cursor_pos));
        true
    }

    /// Merges row `row` into the row above it and takes it out of the grid,
    /// if it can be merged; the caret moves to where the two rows meet.
    /// Reports whether it merged.
    pub fn merge_rows(&mut self, row: usize) -> (done: bool)
        ensures
            done == can_merge(old(self).grid(), row as int),
            final(self).grid() == if done {
                merged_grid(old(self).grid(), row as int)
            } else {
                old(self).grid()
            },
            final(self).caret_pos == if done {
                Some(
                    (
                        (row - 1) as usize,
                        (old(self).grid()[row - 1].len() - 1) as usize,
                        byte_len(old(self).grid()[row - 1].last()) as usize,
                    ),
                )
            } else {
                old(self).caret_pos
            },
            final(self).text_width == old(self).text_width,
    {
        if self.absorb_row(row) {
            let _ = self.remove_row(row);
            true
        } else {
            false
        }
    }

    /// Splits row `row` in the cell `col` at the byte offset `offset`, if
    /// the cell can be split there, and moves the caret to the start of the
    /// new row. Reports whether it split.
    pub fn split_row(&mut self, row: usize, col: usize, offset: usize) -> (done: bool)
        ensures
            done == can_split(old(self).grid(), row as int, col as int, offset as nat),
            final(self).grid() == if done {
                split_grid(old(self).grid(), row as int, col as int, offset as nat)
            } else {
                old(self).grid()
            },
            final(self).caret_pos == if done {
                Some(((row + 1) as usize, 0usize, 0usize))
            } else {
                old(self).caret_pos
            },
            final(self).text_width == old(self).text_width,
    {
        if row >= self.raw_text.len() || col >= self.raw_text[row].len() {
            return false;
        }
        let ghost before = self.grid();
        match split_text(self.raw_text[row][col].as_str(), offset) {
            Some((head, tail)) => {
                let mut lower: Vec<String> = self.raw_text[row].split_off(col + 1);
                lower.insert(0, tail);
                self.raw_text[row][col] = head;
                assert(self.grid()[row as int] =~= before[row as int].take(col as int).push(head@));
                assert(lower.deep_view() =~= seq![tail@] + before[row as int].skip(col + 1));
                let ghost shown = self.grid();
                assert(shown =~= before.update(row as int, shown[row as int]));
                self.raw_text.insert(row + 1, lower);
                assert(self.grid() =~= shown.insert(row + 1, lower.deep_view()));
                assert(self.grid() =~= split_grid(
                    before,
                    row as int,
                    col as int,
                    offset as nat,
                ));
                self.caret_pos = Some((row + 1, 0, 0));
                true
            },
            None => false,
        }
    }

    /// Notes the measured width of cell `(row, col)`, the widths having
    /// grown by rows of one unmeasured cell and the row by unmeasured cells
    /// until they hold the cell.
    pub fn set_width(&mut self, row: usize, col: usize, width: Option<usize>)
        ensures
            final(self).widths() == with_width(old(self).widths(), row as nat, col as nat, width),
            final(self).raw_text == old(self).raw_text,
            final(self).caret_pos == old(self).caret_pos,
    {
        let ghost before = self.widths();
        assert(self.widths() =~= before + Seq::new(0, |k: int| seq![None::<usize>]));
        while row >= self.text_width.len()
            invariant
                self.text_width.len() >= before.len(),
                self.text_width.len() > before.len() ==> self.text_width.len() <= row + 1,
                self.widths() == before + Seq::new(
                    (self.text_width.len() - before.len()) as nat,
                    |k: int| seq![None::<usize>],
                ),
                self.raw_text == old(self).raw_text,
                self.caret_pos == old(self).caret_pos,
            decreases row + 1 - self.text_width.len(),
        {
            let ghost shown = self.widths();
            let fresh: Vec<Option<usize>> = vec![None];
            assert(fresh@ =~= seq![None::<usize>]);
            self.text_width.push(fresh);
            assert(self.widths() =~= shown.push(seq![None::<usize>]));
            assert(self.widths() =~= before + Seq::new(
                (self.text_width.len() - before.len()) as nat,
                |k: int| seq![None::<usize>],
            ));
        }
        let ghost rows = self.widths();
        let ghost cells = rows[row as int];
        assert(self.text_width[row as int]@ =~= cells + Seq::new(0, |k: int| None::<usize>));
        while col >= self.text_width[row].len()
            invariant
                row < self.text_width.len(),
                self.text_width.len() == rows.len(),
                self.text_width[row as int].len() >= cells.len(),
                self.text_width[row as int].len() > cells.len() ==> self.text_width[row as int].len()
                    <= col + 1,
                self.text_width[row as int]@ == cells + Seq::new(
                    (self.text_width[row as int].len() - cells.len()) as nat,
                    |k: int| None::<usize>,
                ),
                forall|r: int| 0 <= r < rows.len() && r != row ==> self.text_width[r]@ == rows[r],
                self.raw_text == old(self).raw_text,
                self.caret_pos == old(self).caret_pos,
            decreases col + 1 - self.text_width[row as int].len(),
        {
            let ghost shown = self.text_width[row as int]@;
            self.text_width[row].push(None);
            assert(self.text_width[row as int]@ =~= shown.push(None::<usize>));
            assert(self.text_width[row as int]@ =~= cells + Seq::new(
                (self.text_width[row as int].len() - cells.len()) as nat,
                |k: int| None::<usize>,
            ));
        }
        self.text_width[row][col] = width;
        assert(self.widths() =~= with_width(before, row as nat, col as nat, width));
    }

    /// The measured width of cell `(row, col)`; `None` where the cell has
    /// not been measured or the widths do not hold it.
    pub fn width_at(&self, row: usize, col: usize) -> (width: Option<usize>)
        ensures
            width == width_in(self.widths(), row as int, col as int),
    {
        if row < self.text_width.len() && col < self.text_width[row].len() {
            self.text_width[row][col]
        } else {
            None
        }
    }

    /// Moves the caret to `(index_i, index_j, char_pos)` if `(index_i,
    /// index_j)` is a cell of the grid; otherwise no cell has the focus
    /// afterwards.
    pub fn move_caret(&mut self, index_i: usize, index_j: usize, char_pos: usize)
        ensures
            final(self).caret_pos == if is_cell(old(self).grid(), index_i as int, index_j as int) {
                Some((index_i, index_j, char_pos))
            } else {
                None
            },
            final(self).raw_text == old(self).raw_text,
            final(self).text_width == old(self).text_width,
            final(self).wf(),
    {
        if index_i < self.raw_text.len() && index_j < self.raw_text[index_i].len() {
            self.caret_pos = Some((index_i, index_j, char_pos));
        } else {
            self.caret_pos = None;
        }
    }

    /// Takes the focus from every cell.
    pub fn clear_caret(&mut self)
        ensures
            final(self).caret_pos is None,
            final(self).raw_text == old(self).raw_text,
            final(self).text_width == old(self).text_width,
            final(self).wf(),
    {
        self.caret_pos = None;
    }
}

} // verus!
