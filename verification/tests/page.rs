use markdown_grid::dom::{
    get_cell_id, get_element_id, get_row_id, make_caret_script, make_clear_text_script,
    make_create_cell_script, make_create_row_script, make_delete_element_script,
    make_delete_row_script, make_focus_script, make_measure_script, make_positioned_text_script,
    make_text_script,
};
use markdown_grid::queue::{parse_cell, parse_cell_id, parse_row_data};

#[test]
fn element_ids() {
    assert_eq!(get_element_id(0, 0), "textarea-0-0");
    assert_eq!(get_element_id(12, 345), "textarea-12-345");
    assert_eq!(get_row_id(7), "textrow-7");
    assert_eq!(get_cell_id(1, 20, 300), "1,20,300");
}

#[test]
fn a_written_cell_id_reads_back() {
    for (row, col, offset) in [(0, 0, 0), (1, 20, 300), (usize::MAX, 0, usize::MAX)] {
        assert_eq!(
            parse_cell_id(&get_cell_id(row, col, offset)),
            Some((row, col, offset))
        );
    }
}

#[test]
fn cell_ids_need_three_numbers() {
    for id in ["", "1", "1,2", "1,2,3,4", "1,2,", ",1,2", "a,2,3", "1, 2,3", "1,2,-3"] {
        assert_eq!(parse_cell_id(id), None, "{id:?}");
    }
    assert_eq!(parse_cell_id("+1,02,3"), Some((1, 2, 3)));
}

#[test]
fn cells_need_two_numbers() {
    assert_eq!(parse_cell("3,4"), Some((3, 4)));
    for text in ["", "3", "3,4,5", "3,", "x,4"] {
        assert_eq!(parse_cell(text), None, "{text:?}");
    }
}

#[test]
fn row_data_keeps_what_follows_the_second_bar() {
    assert_eq!(parse_row_data("1|2|[\"a\"]"), Some((1, 2, "[\"a\"]".to_string())));
    assert_eq!(parse_row_data("1|2|[\"a|b\",\"|\"]"), Some((1, 2, "[\"a|b\",\"|\"]".to_string())));
    assert_eq!(parse_row_data("1|2|"), Some((1, 2, String::new())));
    for data in ["", "1", "1|2", "|2|x", "1||x", "a|2|x", "1|b|x"] {
        assert_eq!(parse_row_data(data), None, "{data:?}");
    }
}

#[test]
fn scripts_that_name_an_element() {
    assert_eq!(
        make_caret_script("textarea-1-2"),
        "return window.getCaretClickPosition('textarea-1-2');"
    );
    assert_eq!(make_text_script("textarea-1-2"), "return window.getElementText('textarea-1-2');");
    assert_eq!(
        make_focus_script("textarea-1-2", 14),
        "return window.focusElementAndSetCaret('textarea-1-2', 14);"
    );
    assert_eq!(make_delete_row_script("textrow-3"), "return window.deleteRow('textrow-3');");
    assert_eq!(make_create_row_script("textrow-3"), "return window.createRow('textrow-3');");
    assert_eq!(
        make_delete_element_script("textarea-0-0"),
        "return window.deleteElement('textarea-0-0');"
    );
    assert_eq!(
        make_create_cell_script("textarea-0-1", "textrow-0", "hi", "bold"),
        "return window.createCell('textarea-0-1', 'textrow-0', 'hi', 'bold');"
    );
}

#[test]
fn clear_text_script_escapes_single_quotes() {
    assert_eq!(
        make_clear_text_script("textarea-0-0", "plain"),
        "return window.clearElementText('textarea-0-0', 'plain');"
    );
    assert_eq!(
        make_clear_text_script("textarea-0-0", "it's 'so'"),
        "return window.clearElementText('textarea-0-0', 'it\\'s \\'so\\'');"
    );
    assert_eq!(
        make_clear_text_script("x", ""),
        "return window.clearElementText('x', '');"
    );
}

#[test]
fn measure_script_holds_the_text() {
    let script = make_measure_script("wide text");
    assert!(script.starts_with("let span = document.createElement('span');"));
    assert!(script.contains("span.style.fontFamily = 'CqMono';"));
    assert!(script.contains("span.style.fontSize = '16px';"));
    assert!(script.contains("span.style.whiteSpace = 'pre';"));
    assert!(script.contains("span.textContent = 'wide text';"));
    assert!(script.ends_with("document.body.removeChild(span); return width;"));
}

#[test]
fn positioned_text_script_holds_the_encoded_text() {
    assert_eq!(
        make_positioned_text_script("textarea-0-0", "aGk=", 2),
        "return window.clearElementTextWithPosition('textarea-0-0', atob(\"aGk=\"), 2);"
    );
}
