use markdown_grid::builder::EditorBuilder;
use markdown_grid::state::State;

fn row(cells: &[&str]) -> Vec<String> {
    cells.iter().map(|cell| cell.to_string()).collect()
}

fn editor(rows: &[&[&str]]) -> EditorBuilder {
    EditorBuilder::new(State {
        raw_text: rows.iter().map(|cells| row(cells)).collect(),
        caret_pos: None,
        text_width: Vec::new(),
    })
}

#[test]
fn flatten_sums_the_cells_before_the_caret() {
    let editor = editor(&[&["zz"], &["ab", "cde", "é"]]);
    assert_eq!(editor.get_row_level_caret_pos(Some((1, 0, 0))), Some(0));
    assert_eq!(editor.get_row_level_caret_pos(Some((1, 0, 2))), Some(2));
    assert_eq!(editor.get_row_level_caret_pos(Some((1, 1, 2))), Some(4));
    assert_eq!(editor.get_row_level_caret_pos(Some((1, 2, 2))), Some(7));
    assert_eq!(editor.get_row_level_caret_pos(Some((1, 3, 0))), Some(7));
    assert_eq!(editor.get_row_level_caret_pos(Some((0, 0, 9))), Some(9));
    assert_eq!(editor.get_row_level_caret_pos(None), None);
}

#[test]
fn flatten_of_a_caret_outside_the_grid_is_none() {
    let editor = editor(&[&["ab", "cde"]]);
    assert_eq!(editor.get_row_level_caret_pos(Some((1, 0, 0))), None);
    assert_eq!(editor.get_row_level_caret_pos(Some((0, 3, 0))), None);
    assert_eq!(editor.get_row_level_caret_pos(Some((usize::MAX, 0, 0))), None);
}

#[test]
fn flatten_that_does_not_fit_is_none() {
    let editor = editor(&[&["ab", "cde"]]);
    assert_eq!(editor.get_row_level_caret_pos(Some((0, 1, usize::MAX))), None);
    assert_eq!(editor.get_row_level_caret_pos(Some((0, 1, usize::MAX - 2))), Some(usize::MAX));
    assert_eq!(editor.get_row_level_caret_pos(Some((0, 0, usize::MAX))), Some(usize::MAX));
}

#[test]
fn unflatten_lands_one_byte_to_the_right_inside_a_cell() {
    let editor = editor(&[]);
    let cells = row(&["ab", "cde"]);
    assert_eq!(editor.get_caret_from_row_level_pos(0, 4, cells.clone()), Some((4, 0, 1)));
    assert_eq!(editor.get_caret_from_row_level_pos(1, 4, cells.clone()), Some((4, 0, 2)));
    assert_eq!(editor.get_caret_from_row_level_pos(2, 4, cells.clone()), Some((4, 1, 1)));
    assert_eq!(editor.get_caret_from_row_level_pos(4, 4, cells.clone()), Some((4, 1, 3)));
}

#[test]
fn unflatten_beyond_the_row_lands_at_its_end() {
    let editor = editor(&[]);
    let cells = row(&["ab", "cde"]);
    assert_eq!(editor.get_caret_from_row_level_pos(5, 0, cells.clone()), Some((0, 1, 3)));
    assert_eq!(editor.get_caret_from_row_level_pos(6, 0, cells.clone()), Some((0, 1, 3)));
    assert_eq!(editor.get_caret_from_row_level_pos(usize::MAX, 0, cells), Some((0, 1, 3)));
}

#[test]
fn unflatten_passes_over_empty_cells() {
    let editor = editor(&[]);
    assert_eq!(
        editor.get_caret_from_row_level_pos(0, 1, row(&["", "", "x"])),
        Some((1, 2, 1))
    );
    assert_eq!(editor.get_caret_from_row_level_pos(0, 1, row(&["", ""])), Some((1, 1, 0)));
    assert_eq!(editor.get_caret_from_row_level_pos(3, 1, row(&[""])), Some((1, 0, 0)));
}

#[test]
fn unflatten_in_a_row_without_cells_is_none() {
    let editor = editor(&[]);
    assert_eq!(editor.get_caret_from_row_level_pos(0, 7, Vec::new()), None);
    assert_eq!(editor.get_caret_from_row_level_pos(5, 7, Vec::new()), None);
}

#[test]
fn flatten_then_unflatten_inside_a_cell_adds_one_byte() {
    let editor = editor(&[&["ab", "cde", "f"]]);
    let cells = editor.get_raw_text_vec()[0].clone();
    for (col, len) in [(0usize, 2usize), (1, 3), (2, 1)] {
        for offset in 0..len {
            let flat = editor.get_row_level_caret_pos(Some((0, col, offset))).unwrap();
            assert_eq!(
                editor.get_caret_from_row_level_pos(flat, 0, cells.clone()),
                Some((0, col, offset + 1)),
                "col {col} offset {offset}"
            );
        }
    }
}

#[test]
fn flatten_then_unflatten_at_the_end_of_the_row_is_the_identity() {
    for cells in [row(&["ab", "cde", "f"]), row(&["x"]), row(&[""]), row(&["a", ""])] {
        let editor = EditorBuilder::new(State {
            raw_text: vec![cells.clone()],
            caret_pos: None,
            text_width: Vec::new(),
        });
        let col = cells.len() - 1;
        let offset = cells[col].len();
        let flat = editor.get_row_level_caret_pos(Some((0, col, offset))).unwrap();
        assert_eq!(
            editor.get_caret_from_row_level_pos(flat, 0, cells.clone()),
            Some((0, col, offset))
        );
    }
}

#[test]
fn flatten_then_unflatten_at_the_end_of_an_inner_cell_moves_on() {
    let editor = editor(&[&["ab", "cde"]]);
    let cells = editor.get_raw_text_vec()[0].clone();
    let flat = editor.get_row_level_caret_pos(Some((0, 0, 2))).unwrap();
    assert_eq!(flat, 2);
    assert_eq!(editor.get_caret_from_row_level_pos(flat, 0, cells), Some((0, 1, 1)));
}
