use markdown_grid::layout;
use markdown_grid::syntax::markdown::{
    compute_markdown_style_props, compute_markdown_style_string, CellInfo, MarkDownStyle,
};
use markdown_grid::syntax::text::{HeadingLevel, MarkDownElements};

fn info(col: usize, num_cols: usize, width: Option<usize>, syntax: MarkDownElements) -> CellInfo {
    CellInfo { row: 0, col, num_cols, width, syntax }
}

fn heading(level: usize, text: &str) -> MarkDownElements {
    let text = text.to_string();
    MarkDownElements::Heading(match level {
        1 => HeadingLevel::H1(text),
        2 => HeadingLevel::H2(text),
        3 => HeadingLevel::H3(text),
        4 => HeadingLevel::H4(text),
        5 => HeadingLevel::H5(text),
        _ => HeadingLevel::H6(text),
    })
}

#[test]
fn heading_style() {
    let style = compute_markdown_style_props(info(0, 1, Some(120), heading(1, "# T")));
    assert_eq!(style.text, "# T");
    assert_eq!(style.font_size, 32);
    assert!(style.bold);
    assert_eq!(style.color, "black");
    assert_eq!(style.width, "120px");
    assert_eq!(style.flex_grow, 1);
}

#[test]
fn font_size_by_heading_level() {
    let sizes: Vec<usize> = (1..=6)
        .map(|level| compute_markdown_style_props(info(0, 1, None, heading(level, "h"))).font_size)
        .collect();
    assert_eq!(sizes, vec![32, 28, 24, 20, 18, 16]);
}

#[test]
fn plain_bold_and_empty_cells_have_the_base_font_size() {
    let plain = compute_markdown_style_props(info(
        0,
        2,
        None,
        MarkDownElements::PlainText("p".to_string()),
    ));
    assert_eq!((plain.font_size, plain.bold, plain.flex_grow), (16, false, 0));
    assert_eq!(plain.text, "p");
    assert_eq!(plain.width, "auto");

    let bold = compute_markdown_style_props(info(
        1,
        2,
        Some(0),
        MarkDownElements::BoldText("**b**".to_string()),
    ));
    assert_eq!((bold.font_size, bold.bold, bold.flex_grow), (16, true, 1));
    assert_eq!(bold.text, "**b**");
    assert_eq!(bold.width, "0px");

    let empty = compute_markdown_style_props(info(0, 1, None, MarkDownElements::EmptySpace));
    assert_eq!((empty.font_size, empty.bold, empty.flex_grow), (16, false, 1));
    assert_eq!(empty.text, "");
}

#[test]
fn only_the_last_column_grows() {
    for num_cols in 0..4usize {
        for col in 0..5usize {
            let style = compute_markdown_style_props(info(
                col,
                num_cols,
                None,
                MarkDownElements::EmptySpace,
            ));
            let expected = if col + 1 == num_cols { 1 } else { 0 };
            assert_eq!(style.flex_grow, expected, "col {col} of {num_cols}");
        }
    }
}

#[test]
fn style_string_of_a_heading() {
    let style = compute_markdown_style_props(info(0, 1, Some(120), heading(1, "# T")));
    assert_eq!(
        compute_markdown_style_string(style),
        "font-size: 32px; color: black; font-weight: bold; width: 120pxpx; flex-grow: 1"
    );
}

#[test]
fn style_string_writes_every_field() {
    let style = MarkDownStyle {
        text: "ignored".to_string(),
        font_size: 1234567890,
        bold: false,
        color: "red".to_string(),
        width: "auto".to_string(),
        flex_grow: -2147483648,
    };
    assert_eq!(
        compute_markdown_style_string(style),
        "font-size: 1234567890px; color: red; font-weight: normal; width: autopx; flex-grow: -2147483648"
    );
    let style = MarkDownStyle {
        text: String::new(),
        font_size: 0,
        bold: true,
        color: String::new(),
        width: String::new(),
        flex_grow: 0,
    };
    assert_eq!(
        compute_markdown_style_string(style),
        "font-size: 0px; color: ; font-weight: bold; width: px; flex-grow: 0"
    );
}

#[test]
fn style_by_place() {
    let cell = |row, col, num_cols, width| layout::CellInfo { row, col, num_cols, width };
    assert_eq!(
        layout::compute_style(cell(0, 1, 2, None)),
        "flex-grow: 1; font-weight: normal; width: auto;"
    );
    assert_eq!(
        layout::compute_style(cell(3, 1, 2, Some(45))),
        "flex-grow: 1; font-weight: bold; width: 45px;"
    );
    assert_eq!(layout::compute_style(cell(0, 0, 2, Some(7))), "flex-grow: 0; width: 7px;");
    assert_eq!(
        layout::compute_style(cell(2, 0, 2, None)),
        "flex-grow: 0; font-weight: bold; width: auto;"
    );
    assert_eq!(layout::compute_style(cell(0, 0, 0, None)), "flex-grow: 0; width: auto;");
}
