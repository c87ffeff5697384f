use markdown_grid::builder::EditorBuilder;
use markdown_grid::state::{pad_rows, State, MIN_ROWS};
use markdown_grid::syntax::text::TextProcessor;

fn row(cells: &[&str]) -> Vec<String> {
    cells.iter().map(|cell| cell.to_string()).collect()
}

fn document(rows: &[&[&str]]) -> State {
    State {
        raw_text: rows.iter().map(|cells| row(cells)).collect(),
        caret_pos: None,
        text_width: Vec::new(),
    }
}

#[test]
fn new_document_holds_the_tokenized_text() {
    let state = State::new("# T\nabc **d**".to_string(), None);
    assert_eq!(
        state.raw_text,
        vec![row(&["# T"]), row(&["abc ", "**d**"]), row(&[""])]
    );
    assert_eq!(state.caret_pos, None);
}

#[test]
fn new_document_is_the_flattened_rows() {
    let processor = TextProcessor::new();
    for source in ["", "a", "# T\n\n\tb **c** d\r\n__e__", "x\n".repeat(30).as_str()] {
        let rows = processor.process_markdown(source.to_string());
        let grid = processor.extract_strings(rows);
        assert_eq!(State::new(source.to_string(), None).raw_text, grid, "{source:?}");
    }
    assert_eq!(State::new(String::new(), None).raw_text, vec![row(&[""])]);
}

#[test]
fn new_document_has_no_measured_cell() {
    let state = State::new("a **b**\n\nc".to_string(), None);
    assert_eq!(state.text_width.len(), state.raw_text.len());
    for (widths, cells) in state.text_width.iter().zip(state.raw_text.iter()) {
        assert_eq!(widths.len(), cells.len());
        assert!(widths.iter().all(|width| width.is_none()));
    }
}

#[test]
fn new_document_keeps_a_caret_in_the_grid_only() {
    assert_eq!(State::new("ab".to_string(), Some((0, 0, 2))).caret_pos, Some((0, 0, 2)));
    assert_eq!(State::new("ab".to_string(), Some((1, 0, 9))).caret_pos, Some((1, 0, 9)));
    assert_eq!(State::new("ab".to_string(), Some((2, 0, 0))).caret_pos, None);
    assert_eq!(State::new("ab".to_string(), Some((0, 1, 0))).caret_pos, None);
}

#[test]
fn padded_document_has_room_to_write_in() {
    let state = State::new_padded("# T\nabc **d**".to_string(), None);
    assert_eq!(state.raw_text.len(), MIN_ROWS);
    assert_eq!(MIN_ROWS, 20);
    assert_eq!(state.raw_text[0], row(&["# T"]));
    assert_eq!(state.raw_text[1], row(&["abc ", "**d**"]));
    for r in 2..MIN_ROWS {
        assert_eq!(state.raw_text[r], row(&[""]), "row {r}");
    }
    assert_eq!(state.text_width, vec![vec![None], vec![None, None]]
        .into_iter()
        .chain((2..MIN_ROWS).map(|_| vec![None]))
        .collect::<Vec<Vec<Option<usize>>>>());
    assert_eq!(state.caret_pos, None);
}

#[test]
fn padded_document_is_not_padded_beyond_its_rows() {
    let source = "x\n".repeat(30);
    let state = State::new_padded(source, None);
    assert_eq!(state.raw_text.len(), 31);
    assert_eq!(state.raw_text[29], row(&["x"]));
    assert_eq!(state.raw_text[30], row(&[""]));
}

#[test]
fn padded_document_keeps_a_caret_in_the_padded_grid() {
    assert_eq!(State::new_padded("ab".to_string(), Some((19, 0, 9))).caret_pos, Some((19, 0, 9)));
    assert_eq!(State::new_padded("ab".to_string(), Some((20, 0, 0))).caret_pos, None);
    assert_eq!(State::new_padded("ab".to_string(), Some((0, 1, 0))).caret_pos, None);
}

#[test]
fn document_from_a_grid() {
    let state = State::from_grid(vec![row(&["a", "b"]), row(&[])], Some((0, 1, 5)));
    assert_eq!(state.raw_text, vec![row(&["a", "b"]), row(&[])]);
    assert_eq!(state.text_width, vec![vec![None, None], vec![]]);
    assert_eq!(state.caret_pos, Some((0, 1, 5)));
    let state = State::from_grid(vec![row(&["a", "b"]), row(&[])], Some((1, 0, 0)));
    assert_eq!(state.caret_pos, None);
}

#[test]
fn pad_rows_adds_rows_of_one_empty_cell() {
    let mut rows = vec![row(&["a", "b"])];
    pad_rows(&mut rows, 3);
    assert_eq!(rows, vec![row(&["a", "b"]), row(&[""]), row(&[""])]);
    pad_rows(&mut rows, 2);
    assert_eq!(rows.len(), 3);
}

#[test]
fn update_text_grows_the_grid() {
    let mut state = document(&[&["a"]]);
    state.update_text(5, 3, "x".to_string());
    assert_eq!(state.raw_text.len(), 6);
    assert_eq!(state.raw_text[0], row(&["a"]));
    for r in 1..5 {
        assert!(state.raw_text[r].is_empty(), "row {r}");
    }
    assert_eq!(state.raw_text[5], row(&["", "", "", "x"]));
}

#[test]
fn update_text_overwrites_one_cell() {
    let mut state = document(&[&["a", "b", "c"], &["d"]]);
    state.update_text(0, 1, "B".to_string());
    assert_eq!(state.raw_text, vec![row(&["a", "B", "c"]), row(&["d"])]);
    state.update_text(1, 2, "f".to_string());
    assert_eq!(state.raw_text, vec![row(&["a", "B", "c"]), row(&["d", "", "f"])]);
}

#[test]
fn update_text_pulls_the_caret_back() {
    let mut state = document(&[&["abcdef", "xyz"]]);
    state.caret_pos = Some((0, 0, 5));
    state.update_text(0, 0, "hé".to_string());
    assert_eq!(state.caret_pos, Some((0, 0, 3)));
    state.update_text(0, 0, "longer text".to_string());
    assert_eq!(state.caret_pos, Some((0, 0, 3)));
    state.update_text(0, 1, String::new());
    assert_eq!(state.caret_pos, Some((0, 0, 3)));
    state.caret_pos = None;
    state.update_text(0, 0, String::new());
    assert_eq!(state.caret_pos, None);
}

#[test]
fn move_caret_checks_the_cell() {
    let mut state = document(&[&["a", "b"], &[]]);
    state.move_caret(0, 1, 7);
    assert_eq!(state.caret_pos, Some((0, 1, 7)));
    state.move_caret(2, 0, 0);
    assert_eq!(state.caret_pos, None);
    state.move_caret(0, 0, 0);
    assert_eq!(state.caret_pos, Some((0, 0, 0)));
    state.move_caret(0, 2, 0);
    assert_eq!(state.caret_pos, None);
    state.move_caret(1, 0, 0);
    assert_eq!(state.caret_pos, None);
    state.move_caret(usize::MAX, usize::MAX, usize::MAX);
    assert_eq!(state.caret_pos, None);
    assert_eq!(state.raw_text, vec![row(&["a", "b"]), row(&[])]);
}

#[test]
fn clear_caret_takes_the_focus() {
    let mut state = document(&[&["a"]]);
    state.move_caret(0, 0, 1);
    state.clear_caret();
    assert_eq!(state.caret_pos, None);
    state.clear_caret();
    assert_eq!(state.caret_pos, None);
}

#[test]
fn split_row_moves_the_tail_into_a_new_row() {
    let mut state = document(&[&["# T"], &["hello world", "**b**", "c"], &["next"]]);
    state.caret_pos = Some((1, 0, 5));
    assert!(state.split_row(1, 0, 5));
    assert_eq!(
        state.raw_text,
        vec![row(&["# T"]), row(&["hello"]), row(&[" world", "**b**", "c"]), row(&["next"])]
    );
    assert_eq!(state.caret_pos, Some((2, 0, 0)));
}

#[test]
fn split_row_at_the_ends_of_a_cell() {
    let mut state = document(&[&["ab", "cd"]]);
    assert!(state.split_row(0, 1, 0));
    assert_eq!(state.raw_text, vec![row(&["ab", ""]), row(&["cd"])]);
    assert!(state.split_row(1, 0, 2));
    assert_eq!(state.raw_text, vec![row(&["ab", ""]), row(&["cd"]), row(&[""])]);
    assert_eq!(state.caret_pos, Some((2, 0, 0)));
}

#[test]
fn split_row_refuses_what_it_cannot_split() {
    let mut state = document(&[&["hé"]]);
    state.caret_pos = Some((0, 0, 1));
    for (r, c, p) in [(0, 0, 2), (0, 0, 4), (0, 1, 0), (1, 0, 0)] {
        assert!(!state.split_row(r, c, p), "{r} {c} {p}");
        assert_eq!(state.raw_text, vec![row(&["hé"])]);
        assert_eq!(state.caret_pos, Some((0, 0, 1)));
    }
}

#[test]
fn merge_rows_joins_the_first_cell_and_appends_the_rest() {
    let mut state = document(&[&["a", "b"], &["c", "d", "e"], &["f"]]);
    assert!(state.merge_rows(1));
    assert_eq!(state.raw_text, vec![row(&["a", "bc", "d", "e"]), row(&["f"])]);
    assert_eq!(state.caret_pos, Some((0, 1, 1)));
}

#[test]
fn merge_rows_with_an_empty_lower_row() {
    let mut state = document(&[&["ab"], &[]]);
    assert!(state.merge_rows(1));
    assert_eq!(state.raw_text, vec![row(&["ab"])]);
    assert_eq!(state.caret_pos, Some((0, 0, 2)));
}

#[test]
fn merge_rows_refuses_what_it_cannot_merge() {
    let mut state = document(&[&[], &["a"]]);
    for r in [0, 1, 2, usize::MAX] {
        assert!(!state.merge_rows(r), "row {r}");
        assert_eq!(state.raw_text, vec![row(&[]), row(&["a"])]);
        assert_eq!(state.caret_pos, None);
    }
}

#[test]
fn split_then_merge_gives_the_row_back() {
    let mut state = document(&[&["one", "two three", "four"]]);
    assert!(state.split_row(0, 1, 4));
    assert_eq!(state.raw_text, vec![row(&["one", "two "]), row(&["three", "four"])]);
    assert!(state.merge_rows(1));
    assert_eq!(state.raw_text, vec![row(&["one", "two three", "four"])]);
    assert_eq!(state.caret_pos, Some((0, 1, 4)));
}

#[test]
fn absorb_row_keeps_the_lower_row() {
    let mut state = document(&[&["a"], &["b", "c"]]);
    assert!(state.absorb_row(1));
    assert_eq!(state.raw_text, vec![row(&["ab", "c"]), row(&["b", "c"])]);
    assert_eq!(state.caret_pos, Some((0, 0, 1)));
}

#[test]
fn rows_and_cells_are_put_in_and_taken_out() {
    let mut state = document(&[&["a", "b", "c"]]);
    assert!(state.insert_row(1, row(&["x"])));
    assert!(state.insert_row(0, row(&[])));
    assert!(!state.insert_row(4, row(&["y"])));
    assert_eq!(state.raw_text, vec![row(&[]), row(&["a", "b", "c"]), row(&["x"])]);
    state.truncate_row(1, 2);
    state.truncate_row(1, 5);
    state.truncate_row(7, 0);
    assert_eq!(state.raw_text[1], row(&["a", "b"]));
    assert!(state.remove_cell(1, 0));
    assert!(!state.remove_cell(1, 1));
    assert!(!state.remove_cell(0, 0));
    assert_eq!(state.raw_text[1], row(&["b"]));
    assert!(state.remove_row(0));
    assert!(!state.remove_row(2));
    assert_eq!(state.raw_text, vec![row(&["b"]), row(&["x"])]);
}

#[test]
fn widths_grow_like_the_grid() {
    let mut state = document(&[&["a"]]);
    assert_eq!(state.width_at(0, 0), None);
    state.set_width(2, 1, Some(40));
    assert_eq!(state.text_width, vec![vec![None], vec![None], vec![None, Some(40)]]);
    assert_eq!(state.width_at(2, 1), Some(40));
    assert_eq!(state.width_at(2, 0), None);
    assert_eq!(state.width_at(3, 0), None);
    assert_eq!(state.width_at(2, 2), None);
    state.set_width(2, 1, None);
    assert_eq!(state.width_at(2, 1), None);
    state.set_width(0, 0, Some(0));
    assert_eq!(state.width_at(0, 0), Some(0));
    assert_eq!(state.raw_text, vec![row(&["a"])]);
}

#[test]
fn editor_hands_out_its_document() {
    let mut editor = EditorBuilder::new(document(&[&["ab", "cd"]]));
    assert_eq!(editor.get_raw_text_vec(), &vec![row(&["ab", "cd"])]);
    assert_eq!(editor.get_caret_pos(), None);
    assert_eq!(editor.get_raw_text_current(), "error");
    editor.move_caret(0, 1, 1);
    assert_eq!(editor.get_caret_pos(), Some((0, 1, 1)));
    assert_eq!(editor.get_raw_text_current(), "cd");
    editor.update_text(0, 1, "".to_string());
    assert_eq!(editor.get_caret_pos(), Some((0, 1, 0)));
    assert_eq!(editor.get_raw_text_current(), "");
    editor.move_caret(3, 0, 0);
    assert_eq!(editor.get_raw_text_current(), "error");
    editor.move_caret(0, 0, 0);
    editor.clear_caret();
    assert_eq!(editor.get_caret_pos(), None);
    editor.state.caret_pos = Some((0, 9, 0));
    assert_eq!(editor.get_raw_text_current(), "error");
}
