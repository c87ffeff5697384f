use markdown_grid::syntax::text::{process_text, TextProcessor};

fn row(cells: &[&str]) -> Vec<String> {
    cells.iter().map(|cell| cell.to_string()).collect()
}

#[test]
fn tagged_cells_of_a_document() {
    let input = "# Header\nNormal text **bold text** more text\n## Subheader\n__another bold__";
    assert_eq!(
        process_text(input.to_string()),
        vec![
            row(&["header1|Header"]),
            row(&["plain|Normal text", "bold|bold text", "plain|more text"]),
            row(&["header2|Subheader"]),
            row(&["bold|another bold"]),
        ]
    );
}

#[test]
fn the_method_gives_what_the_function_gives() {
    let input = "# a\n\nb **c**";
    assert_eq!(
        TextProcessor::new().process_text(input.to_string()),
        process_text(input.to_string())
    );
}

#[test]
fn tagged_heading_counts_any_number_of_hashes() {
    assert_eq!(process_text("####### x".to_string()), vec![row(&["header7|x"])]);
    assert_eq!(
        process_text("############ deep".to_string()),
        vec![row(&["header12|deep"])]
    );
}

#[test]
fn tagged_heading_needs_a_title() {
    assert_eq!(process_text("# ".to_string()), vec![row(&["plain|#"])]);
    assert_eq!(process_text("#   ".to_string()), vec![row(&["plain|#"])]);
    assert_eq!(process_text("#text".to_string()), vec![row(&["plain|#text"])]);
}

#[test]
fn tagged_heading_title_is_trimmed() {
    assert_eq!(process_text("##   wide title  ".to_string()), vec![row(&["header2|wide title"])]);
}

#[test]
fn tagged_blank_lines_give_no_row() {
    assert_eq!(process_text("a\n\n  \nb\n".to_string()), vec![row(&["plain|a"]), row(&["plain|b"])]);
    assert_eq!(process_text("".to_string()), Vec::<Vec<String>>::new());
    assert_eq!(process_text("\n \n".to_string()), Vec::<Vec<String>>::new());
}

#[test]
fn tagged_bold_drops_its_delimiters() {
    assert_eq!(process_text("  **a**  ".to_string()), vec![row(&["bold|a"])]);
    assert_eq!(
        process_text("x__y__z".to_string()),
        vec![row(&["plain|x", "bold|y", "plain|z"])]
    );
}

#[test]
fn tagged_unclosed_bold_is_plain() {
    assert_eq!(process_text("**abc".to_string()), vec![row(&["plain|**abc"])]);
    assert_eq!(process_text("****".to_string()), vec![row(&["plain|****"])]);
}

#[test]
fn tagged_plain_text_is_trimmed() {
    assert_eq!(
        process_text("  a b  **c** d ".to_string()),
        vec![row(&["plain|a b", "bold|c", "plain|d"])]
    );
}

#[test]
fn tagged_tabs_and_line_endings_are_normalized() {
    assert_eq!(
        process_text("a\tb\r\nc\rd".to_string()),
        vec![row(&["plain|a    b"]), row(&["plain|c"]), row(&["plain|d"])]
    );
}
