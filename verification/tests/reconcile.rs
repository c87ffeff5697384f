use markdown_grid::builder::EditorBuilder;
use markdown_grid::dom::{Action, DomUpdate};
use markdown_grid::reconcile::{reconcile, retokenize};
use markdown_grid::state::State;
use markdown_grid::syntax::text::{MarkDownElements, TextProcessor};

fn row(cells: &[&str]) -> Vec<String> {
    cells.iter().map(|cell| cell.to_string()).collect()
}

fn editor(rows: &[&[&str]], caret: Option<(usize, usize, usize)>) -> EditorBuilder {
    EditorBuilder::new(State {
        raw_text: rows.iter().map(|cells| row(cells)).collect(),
        caret_pos: caret,
        text_width: Vec::new(),
    })
}

fn queued(operation: &str, id: &str, data: &str) -> Action {
    Action::Queue(DomUpdate {
        operation: operation.to_string(),
        id: id.to_string(),
        data: Some(data.to_string()),
    })
}

fn measure(row: usize, col: usize, text: &str) -> Action {
    Action::Measure(row, col, text.to_string())
}

#[test]
fn retokenize_reads_the_grid_as_source() {
    let rows = retokenize(vec![row(&["a ", "**b**"]), row(&[]), row(&["c"])]);
    assert_eq!(
        rows,
        vec![
            vec![
                MarkDownElements::PlainText("a ".to_string()),
                MarkDownElements::BoldText("**b**".to_string()),
            ],
            vec![MarkDownElements::EmptySpace],
            vec![MarkDownElements::PlainText("c".to_string())],
            vec![MarkDownElements::EmptySpace],
        ]
    );
}

#[test]
fn a_new_document_needs_no_reconciliation() {
    for source in ["", "a **b** c", "# T\n\nplain\n__x__ y"] {
        let state = State::new(source.to_string(), Some((0, 0, 0)));
        assert_eq!(reconcile(&EditorBuilder::new(state)), vec![], "{source:?}");
        let state = State::new_padded(source.to_string(), Some((0, 0, 0)));
        assert_eq!(reconcile(&EditorBuilder::new(state)), vec![], "{source:?}");
    }
}

#[test]
fn tokenizing_a_tokenized_grid_gives_it_back() {
    let processor = TextProcessor::new();
    for source in ["a **b** c\n\n# T\n  \nx", "**a** **b**", "one\ntwo\n\n\n"] {
        let grid = processor.extract_strings(processor.process_markdown(source.to_string()));
        let again = processor.extract_strings(retokenize(grid.clone()));
        assert_eq!(again, grid, "{source:?}");
    }
}

#[test]
fn a_cell_that_became_two_is_rewritten() {
    let rows: &[&[&str]] = &[&["a ", "**b**", " ", "c"], &["x **y**"], &[""]];
    let actions = reconcile(&editor(rows, Some((1, 0, 3))));
    assert_eq!(
        actions,
        vec![
            queued("internal_process", "", "true"),
            queued("update_text", "1,0,2", "x "),
            measure(1, 0, "x "),
            queued("update_text", "1,1,5", "**y**"),
            measure(1, 1, "**y**"),
            queued("internal_process", "", "false"),
            queued("update_text_cursor", "1,1,2", "**y**"),
            measure(1, 1, "**y**"),
            queued("focus_element", "1,1,2", ""),
            Action::Focus(1, 1, 2),
            measure(0, 0, "a "),
            measure(0, 1, "**b**"),
            measure(0, 2, " "),
            measure(0, 3, "c"),
            measure(1, 0, "x **y**"),
        ]
    );
}

#[test]
fn cells_that_a_row_no_longer_has_are_emptied() {
    let rows: &[&[&str]] = &[&["a", "b", "c"], &[""]];
    let actions = reconcile(&editor(rows, Some((0, 2, 1))));
    assert_eq!(
        actions,
        vec![
            queued("internal_process", "", "true"),
            queued("update_text", "0,2,0", ""),
            queued("update_text", "0,1,0", ""),
            queued("internal_process", "", "false"),
            queued("update_text_cursor", "0,0,3", "abc"),
            measure(0, 0, "abc"),
            queued("focus_element", "0,0,3", ""),
            Action::Focus(0, 0, 3),
            measure(0, 0, "a"),
            measure(0, 1, "b"),
            measure(0, 2, "c"),
        ]
    );
}

#[test]
fn a_change_in_another_row_leaves_the_row_of_the_caret() {
    let rows: &[&[&str]] = &[&["a"], &["x **y**"], &[""]];
    let actions = reconcile(&editor(rows, Some((0, 0, 1))));
    assert_eq!(
        actions,
        vec![
            queued("internal_process", "", "true"),
            measure(0, 0, "a"),
            measure(1, 0, "x **y**"),
        ]
    );
}

#[test]
fn without_a_caret_the_cells_are_measured_only() {
    let rows: &[&[&str]] = &[&["a", ""], &["x **y**"], &[""]];
    let actions = reconcile(&editor(rows, None));
    assert_eq!(actions, vec![measure(0, 0, "a"), measure(1, 0, "x **y**")]);
}

#[test]
fn empty_cells_of_a_row_do_not_count_as_a_change() {
    let rows: &[&[&str]] = &[&["", "a", ""], &["", ""], &[""]];
    assert_eq!(reconcile(&editor(rows, Some((0, 1, 0)))), vec![]);
}

#[test]
fn a_grid_without_its_closing_row_has_changed() {
    let rows: &[&[&str]] = &[&["a"]];
    let actions = reconcile(&editor(rows, Some((0, 0, 1))));
    assert_eq!(actions, vec![queued("internal_process", "", "true"), measure(0, 0, "a")]);
}

#[test]
fn a_caret_outside_the_grid_is_not_put_back() {
    let rows: &[&[&str]] = &[&["x **y**"], &[""]];
    let actions = reconcile(&editor(rows, Some((0, 4, 0))));
    assert_eq!(
        actions,
        vec![
            queued("internal_process", "", "true"),
            queued("update_text", "0,0,2", "x "),
            measure(0, 0, "x "),
            queued("update_text", "0,1,5", "**y**"),
            measure(0, 1, "**y**"),
            queued("internal_process", "", "false"),
            measure(0, 0, "x **y**"),
        ]
    );
}
