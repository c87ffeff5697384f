use markdown_grid::builder::EditorBuilder;
use markdown_grid::dom::{Action, DomUpdate};
use markdown_grid::handler::{handle_backspace, handle_character_input, handle_enter_key};
use markdown_grid::queue::{absorb_row_below, apply_update, create_row_with, update_editor_text};
use markdown_grid::state::State;

fn row(cells: &[&str]) -> Vec<String> {
    cells.iter().map(|cell| cell.to_string()).collect()
}

fn editor(rows: &[&[&str]], caret: Option<(usize, usize, usize)>) -> EditorBuilder {
    EditorBuilder::new(State {
        raw_text: rows.iter().map(|cells| row(cells)).collect(),
        caret_pos: caret,
        text_width: Vec::new(),
    })
}

fn entry(operation: &str, id: &str, data: Option<&str>) -> DomUpdate {
    DomUpdate {
        operation: operation.to_string(),
        id: id.to_string(),
        data: data.map(|text| text.to_string()),
    }
}

fn eval(script: &str) -> Action {
    Action::Eval(script.to_string())
}

fn write(row: usize, col: usize, text: &str) -> Action {
    eval(&format!("return window.clearElementText('textarea-{row}-{col}', '{text}');"))
}

/// Carries out the queued entries among `actions`, and those that they queue.
fn drain(editor: &mut EditorBuilder, actions: Vec<Action>) {
    let mut pending: std::collections::VecDeque<Action> = actions.into();
    while let Some(action) = pending.pop_front() {
        if let Action::Queue(update) = action {
            pending.extend(apply_update(editor, &update));
        }
    }
}

#[test]
fn update_text_writes_the_cell() {
    let mut editor = editor(&[&["ab"]], Some((0, 0, 2)));
    let actions = apply_update(&mut editor, &entry("update_text", "0,0,9", Some("it's")));
    assert_eq!(
        actions,
        vec![eval("return window.clearElementText('textarea-0-0', 'it\\'s');")]
    );
    assert_eq!(editor.state.raw_text, vec![row(&["it's"])]);
    assert_eq!(editor.state.caret_pos, Some((0, 0, 2)));
}

#[test]
fn update_text_grows_the_grid_and_pulls_the_caret_back() {
    let mut editor = editor(&[&["abcdef"]], Some((0, 0, 6)));
    apply_update(&mut editor, &entry("update_text", "0,0,0", Some("ab")));
    assert_eq!(editor.state.caret_pos, Some((0, 0, 2)));
    let actions = apply_update(&mut editor, &entry("update_text", "2,1,0", Some("x")));
    assert_eq!(actions, vec![write(2, 1, "x")]);
    assert_eq!(editor.state.raw_text, vec![row(&["ab"]), row(&[]), row(&["", "x"])]);
}

#[test]
fn update_text_needs_an_id_and_data() {
    for update in [
        entry("update_text", "0,0,0", None),
        entry("update_text", "0,0", Some("x")),
        entry("update_text", "a,0,0", Some("x")),
        entry("update_text", "", Some("x")),
    ] {
        let mut editor = editor(&[&["ab"]], Some((0, 0, 1)));
        assert_eq!(apply_update(&mut editor, &update), vec![]);
        assert_eq!(editor.state.raw_text, vec![row(&["ab"])]);
        assert_eq!(editor.state.caret_pos, Some((0, 0, 1)));
    }
}

#[test]
fn update_text_cursor_writes_the_cell_and_moves_the_caret() {
    let mut editor = editor(&[&["ab"]], None);
    let actions = apply_update(&mut editor, &entry("update_text_cursor", "0,0,2", Some("hello")));
    assert_eq!(
        actions,
        vec![eval(
            "return window.clearElementTextWithPosition('textarea-0-0', atob(\"aGVsbG8=\"), 2);"
        )]
    );
    assert_eq!(editor.state.raw_text, vec![row(&["hello"])]);
    assert_eq!(editor.state.caret_pos, Some((0, 0, 2)));
}

#[test]
fn update_editor_text_encodes_the_bytes_of_the_text() {
    let mut editor = editor(&[], None);
    let actions = update_editor_text(&mut editor, 1, 0, 3, "é'\"".to_string());
    assert_eq!(
        actions,
        vec![eval(
            "return window.clearElementTextWithPosition('textarea-1-0', atob(\"w6knIg==\"), 3);"
        )]
    );
    assert_eq!(editor.state.raw_text, vec![row(&[]), row(&["é'\""])]);
    assert_eq!(editor.state.caret_pos, Some((1, 0, 3)));
    let actions = update_editor_text(&mut editor, 0, 0, 0, String::new());
    assert_eq!(
        actions,
        vec![eval("return window.clearElementTextWithPosition('textarea-0-0', atob(\"\"), 0);")]
    );
}

#[test]
fn delete_row_takes_the_row_out_and_rewrites_what_follows() {
    let mut editor = editor(&[&["a"], &["b"], &["c", "d"]], Some((0, 0, 0)));
    let actions = apply_update(&mut editor, &entry("delete_row", "textrow-1", Some("1")));
    assert_eq!(actions, vec![write(1, 0, "c"), write(1, 1, "d")]);
    assert_eq!(editor.state.raw_text, vec![row(&["a"]), row(&["c", "d"])]);
    assert_eq!(editor.state.caret_pos, Some((0, 0, 0)));
}

#[test]
fn delete_row_outside_the_grid_changes_nothing() {
    let mut editor = editor(&[&["a"]], None);
    assert_eq!(apply_update(&mut editor, &entry("delete_row", "textrow-5", Some("5"))), vec![]);
    assert_eq!(apply_update(&mut editor, &entry("delete_row", "textrow-5", Some("x"))), vec![]);
    assert_eq!(editor.state.raw_text, vec![row(&["a"])]);
}

#[test]
fn delete_row_without_data_is_for_the_page_alone() {
    let mut editor = editor(&[&["a"]], None);
    assert_eq!(
        apply_update(&mut editor, &entry("delete_row", "textrow-0", None)),
        vec![eval("return window.deleteRow('textrow-0');")]
    );
    assert_eq!(editor.state.raw_text, vec![row(&["a"])]);
}

#[test]
fn internal_process_is_noted_by_the_host() {
    let mut editor = editor(&[&["a"]], None);
    assert_eq!(
        apply_update(&mut editor, &entry("internal_process", "", Some("true"))),
        vec![Action::SetInternal(true)]
    );
    assert_eq!(
        apply_update(&mut editor, &entry("internal_process", "", Some("false"))),
        vec![Action::SetInternal(false)]
    );
    assert_eq!(apply_update(&mut editor, &entry("internal_process", "", Some("yes"))), vec![]);
    assert_eq!(apply_update(&mut editor, &entry("internal_process", "", None)), vec![]);
}

#[test]
fn focus_element_reads_its_data() {
    let mut editor = editor(&[&["a"]], None);
    assert_eq!(
        apply_update(&mut editor, &entry("focus_element", "ignored", Some("1,2,3"))),
        vec![
            eval("return window.focusElementAndSetCaret('textarea-1-2', 3);"),
            Action::ReadCaret(1, 2),
        ]
    );
    assert_eq!(apply_update(&mut editor, &entry("focus_element", "1,2,3", Some(""))), vec![]);
    assert_eq!(apply_update(&mut editor, &entry("focus_element", "1,2,3", None)), vec![]);
    assert_eq!(editor.state.caret_pos, None);
}

#[test]
fn create_row_puts_the_row_in_below() {
    let mut editor = editor(&[&["a"], &["z"]], None);
    let actions = apply_update(
        &mut editor,
        &entry("create_row", "textrow-1", Some("0|0|[\"x\",\"y|'\"]")),
    );
    assert_eq!(
        actions,
        vec![write(1, 0, "x"), write(1, 1, "y|\\'"), write(2, 0, "z")]
    );
    assert_eq!(editor.state.raw_text, vec![row(&["a"]), row(&["x", "y|'"]), row(&["z"])]);
    assert_eq!(editor.state.caret_pos, Some((1, 0, 0)));
}

#[test]
fn create_row_with_an_empty_row_leaves_no_focus() {
    let mut editor = editor(&[&["a"]], Some((0, 0, 0)));
    let actions = apply_update(&mut editor, &entry("create_row", "textrow-1", Some("0|0|[]")));
    assert_eq!(actions, vec![]);
    assert_eq!(editor.state.raw_text, vec![row(&["a"]), row(&[])]);
    assert_eq!(editor.state.caret_pos, None);
}

#[test]
fn create_row_needs_a_place_and_a_row() {
    for data in ["1|0|[\"x\"]", "0|0|[\"x\"", "0|0|{\"a\":1}", "0|0|[1]", "0|0|", "0|[\"x\"]", "x"] {
        let mut editor = editor(&[&["a"]], Some((0, 0, 0)));
        assert_eq!(
            apply_update(&mut editor, &entry("create_row", "textrow-1", Some(data))),
            vec![],
            "{data:?}"
        );
        assert_eq!(editor.state.raw_text, vec![row(&["a"])]);
        assert_eq!(editor.state.caret_pos, Some((0, 0, 0)));
    }
}

#[test]
fn create_row_without_data_is_for_the_page_alone() {
    let mut editor = editor(&[&["a"]], None);
    assert_eq!(
        apply_update(&mut editor, &entry("create_row", "textrow-1", None)),
        vec![eval("return window.createRow('textrow-1');")]
    );
    assert_eq!(editor.state.raw_text, vec![row(&["a"])]);
}

#[test]
fn create_row_with_a_row_at_hand() {
    let mut editor = editor(&[&["a"]], None);
    assert_eq!(create_row_with(&mut editor, 0, row(&["b"])), vec![write(1, 0, "b")]);
    assert_eq!(create_row_with(&mut editor, 2, row(&["c"])), vec![]);
    assert_eq!(editor.state.raw_text, vec![row(&["a"]), row(&["b"])]);
}

#[test]
fn delete_element_takes_the_cell_out() {
    let mut editor = editor(&[&["a", "b"]], None);
    let script = eval("return window.deleteElement('textarea-0-1');");
    assert_eq!(
        apply_update(&mut editor, &entry("delete_element", "textarea-0-1", Some("0,1"))),
        vec![script.clone()]
    );
    assert_eq!(editor.state.raw_text, vec![row(&["a"])]);
    for data in [Some("0,1"), Some("0"), Some("x,y"), None] {
        assert_eq!(
            apply_update(&mut editor, &entry("delete_element", "textarea-0-1", data)),
            vec![script.clone()]
        );
        assert_eq!(editor.state.raw_text, vec![row(&["a"])]);
    }
}

#[test]
fn create_cell_writes_the_cell() {
    let mut editor = editor(&[&["abc"]], Some((0, 0, 3)));
    let actions = apply_update(
        &mut editor,
        &entry("create_cell", "textarea-2-1", Some("2,1,textrow-2,hey,bold,more")),
    );
    assert_eq!(
        actions,
        vec![eval("return window.createCell('textarea-2-1', 'textrow-2', 'hey', 'bold');")]
    );
    assert_eq!(
        editor.state.raw_text,
        vec![row(&["abc"]), row(&[""]), row(&["", "hey"])]
    );
    apply_update(&mut editor, &entry("create_cell", "textarea-0-0", Some("0,0,textrow-0,,")));
    assert_eq!(editor.state.raw_text[0], row(&[""]));
    assert_eq!(editor.state.caret_pos, Some((0, 0, 3)));
}

#[test]
fn create_cell_needs_five_fields() {
    for data in [Some("2,1,textrow-2,hey"), Some("a,1,r,t,s"), Some("1,b,r,t,s"), None] {
        let mut editor = editor(&[&["abc"]], None);
        assert_eq!(apply_update(&mut editor, &entry("create_cell", "id", data)), vec![]);
        assert_eq!(editor.state.raw_text, vec![row(&["abc"])]);
    }
}

#[test]
fn update_row_merges_the_row_below() {
    let mut editor = editor(&[&["ab"], &["cd", "e'f"]], Some((1, 0, 0)));
    let actions = apply_update(&mut editor, &entry("update_row", "textrow-0", Some("0|ignored")));
    assert_eq!(
        actions,
        vec![write(0, 0, "abcd"), write(0, 1, "e\\'f"), Action::Focus(0, 0, 2)]
    );
    assert_eq!(editor.state.raw_text, vec![row(&["abcd", "e'f"]), row(&["cd", "e'f"])]);
    assert_eq!(editor.state.caret_pos, Some((0, 0, 2)));
}

#[test]
fn update_row_needs_two_rows_to_merge() {
    for data in [Some("1|x"), Some("0"), Some("|x"), Some("z|x"), None] {
        let mut editor = editor(&[&["ab"], &["cd"]], None);
        assert_eq!(apply_update(&mut editor, &entry("update_row", "textrow-0", data)), vec![]);
        assert_eq!(editor.state.raw_text, vec![row(&["ab"]), row(&["cd"])]);
    }
    let mut editor = editor(&[&[], &["cd"]], None);
    assert_eq!(absorb_row_below(&mut editor, 0), vec![]);
    assert_eq!(absorb_row_below(&mut editor, usize::MAX), vec![]);
}

#[test]
fn an_unknown_operation_does_nothing() {
    let mut editor = editor(&[&["ab"]], Some((0, 0, 1)));
    for operation in ["", "update", "UPDATE_TEXT", "update_text "] {
        assert_eq!(apply_update(&mut editor, &entry(operation, "0,0,0", Some("x"))), vec![]);
    }
    assert_eq!(editor.state.raw_text, vec![row(&["ab"])]);
    assert_eq!(editor.state.caret_pos, Some((0, 0, 1)));
}

#[test]
fn enter_carried_out_splits_the_row() {
    let rows: &[&[&str]] = &[&["# T"], &["hello | world", "**b**", "c"], &["next"]];
    let mut editor = editor(rows, Some((1, 0, 5)));
    let actions = handle_enter_key(1, 0, &mut editor);
    drain(&mut editor, actions);

    let mut split = State {
        raw_text: rows.iter().map(|cells| row(cells)).collect(),
        caret_pos: Some((1, 0, 5)),
        text_width: Vec::new(),
    };
    assert!(split.split_row(1, 0, 5));
    assert_eq!(editor.state.raw_text, split.raw_text);
    assert_eq!(editor.state.caret_pos, split.caret_pos);
    assert_eq!(
        editor.state.raw_text,
        vec![row(&["# T"]), row(&["hello"]), row(&[" | world", "**b**", "c"]), row(&["next"])]
    );
    assert_eq!(editor.state.caret_pos, Some((2, 0, 0)));
}

#[test]
fn backspace_carried_out_merges_the_rows() {
    let rows: &[&[&str]] = &[&["a", "b|"], &["c", "d"], &["e"]];
    let mut editor = editor(rows, Some((1, 0, 0)));
    let actions = handle_backspace(1, 0, &editor);
    drain(&mut editor, actions);

    let mut merged = State {
        raw_text: rows.iter().map(|cells| row(cells)).collect(),
        caret_pos: Some((1, 0, 0)),
        text_width: Vec::new(),
    };
    assert!(merged.merge_rows(1));
    assert_eq!(editor.state.raw_text, merged.raw_text);
    assert_eq!(editor.state.caret_pos, merged.caret_pos);
    assert_eq!(editor.state.raw_text, vec![row(&["a", "b|c", "d"]), row(&["e"])]);
    assert_eq!(editor.state.caret_pos, Some((0, 1, 2)));
}

#[test]
fn typing_carried_out_moves_the_caret_past_the_text() {
    let mut editor = editor(&[&["ab", "cd"]], Some((0, 1, 1)));
    let actions = handle_character_input(0, 1, &editor, "éé");
    drain(&mut editor, actions);
    assert_eq!(editor.state.raw_text, vec![row(&["ab", "cééd"])]);
    assert_eq!(editor.state.caret_pos, Some((0, 1, 5)));
}

#[test]
fn backspace_carried_out_moves_the_caret_back() {
    let mut editor = editor(&[&["ab", "cd"]], Some((0, 1, 2)));
    let actions = handle_backspace(0, 1, &editor);
    drain(&mut editor, actions);
    assert_eq!(editor.state.raw_text, vec![row(&["ab", "c"])]);
    assert_eq!(editor.state.caret_pos, Some((0, 1, 1)));
}

#[test]
fn backspace_at_the_start_of_a_cell_carried_out_joins_the_cells() {
    let mut editor = editor(&[&["ab", "cd"]], Some((0, 1, 0)));
    let actions = handle_backspace(0, 1, &editor);
    drain(&mut editor, actions);
    assert_eq!(editor.state.raw_text, vec![row(&["abcd", ""])]);
    assert_eq!(editor.state.caret_pos, Some((0, 0, 4)));
}

#[test]
fn backspace_below_a_row_without_cells_loses_nothing() {
    let mut editor = editor(&[&[], &["x"]], Some((1, 0, 0)));
    let actions = handle_backspace(1, 0, &editor);
    drain(&mut editor, actions);
    assert_eq!(editor.state.raw_text, vec![row(&[]), row(&["x"])]);
    assert_eq!(editor.state.caret_pos, Some((1, 0, 0)));
}
