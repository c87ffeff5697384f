use markdown_grid::syntax::text::{HeadingLevel, MarkDownElements, TextProcessor};

fn plain(text: &str) -> MarkDownElements {
    MarkDownElements::PlainText(text.to_string())
}

fn bold(text: &str) -> MarkDownElements {
    MarkDownElements::BoldText(text.to_string())
}

fn h1(text: &str) -> MarkDownElements {
    MarkDownElements::Heading(HeadingLevel::H1(text.to_string()))
}

fn blank() -> Vec<MarkDownElements> {
    vec![MarkDownElements::EmptySpace]
}

fn tokenize(input: &str) -> Vec<Vec<MarkDownElements>> {
    TextProcessor::new().process_markdown(input.to_string())
}

#[test]
fn test_process_markdown() {
    let processor = TextProcessor::new();
    let input = "# Header\nNormal text **bold text** more text\n## Subheader\n__another bold__";
    let result = processor.process_markdown(input.to_string());

    let expected = vec![
        vec![MarkDownElements::Heading(HeadingLevel::H1("# Header".to_string()))],
        vec![
            MarkDownElements::PlainText("Normal text ".to_string()),
            MarkDownElements::BoldText("**bold text**".to_string()),
            MarkDownElements::PlainText(" ".to_string()),
            MarkDownElements::PlainText("more text".to_string()),
        ],
        vec![MarkDownElements::Heading(HeadingLevel::H2("## Subheader".to_string()))],
        vec![MarkDownElements::BoldText("__another bold__".to_string())],
        vec![MarkDownElements::EmptySpace],
    ];

    assert_eq!(result, expected);
}

#[test]
fn test_empty_lines_and_invalid_headers() {
    let processor = TextProcessor::new();
    let input = "# Valid Header\n\nInvalid#Header\n**bold**";
    let result = processor.process_markdown(input.to_string());

    let expected = vec![
        vec![MarkDownElements::Heading(HeadingLevel::H1("# Valid Header".to_string()))],
        vec![MarkDownElements::EmptySpace],
        vec![MarkDownElements::PlainText("Invalid#Header".to_string())],
        vec![MarkDownElements::BoldText("**bold**".to_string())],
        vec![MarkDownElements::EmptySpace],
    ];

    assert_eq!(result, expected);
}

#[test]
fn seven_hashes_are_plain_text() {
    assert_eq!(tokenize("####### x"), vec![vec![plain("####### x")], blank()]);
}

#[test]
fn six_hashes_are_a_heading() {
    assert_eq!(
        tokenize("###### x"),
        vec![
            vec![MarkDownElements::Heading(HeadingLevel::H6("###### x".to_string()))],
            blank(),
        ]
    );
}

#[test]
fn every_heading_level_has_its_variant() {
    let rows = tokenize("# a\n## b\n### c\n#### d\n##### e\n###### f");
    let expected = vec![
        vec![MarkDownElements::Heading(HeadingLevel::H1("# a".to_string()))],
        vec![MarkDownElements::Heading(HeadingLevel::H2("## b".to_string()))],
        vec![MarkDownElements::Heading(HeadingLevel::H3("### c".to_string()))],
        vec![MarkDownElements::Heading(HeadingLevel::H4("#### d".to_string()))],
        vec![MarkDownElements::Heading(HeadingLevel::H5("##### e".to_string()))],
        vec![MarkDownElements::Heading(HeadingLevel::H6("###### f".to_string()))],
        blank(),
    ];
    assert_eq!(rows, expected);
}

#[test]
fn hash_without_space_is_plain_text() {
    assert_eq!(tokenize("#text"), vec![vec![plain("#text")], blank()]);
}

#[test]
fn hash_and_space_without_text_is_plain_text() {
    assert_eq!(tokenize("# "), vec![vec![plain("# ")], blank()]);
}

#[test]
fn lone_hash_is_plain_text() {
    assert_eq!(tokenize("#"), vec![vec![plain("#")], blank()]);
}

#[test]
fn indented_hash_is_plain_text() {
    assert_eq!(tokenize(" # x"), vec![vec![plain(" # x")], blank()]);
}

#[test]
fn two_bold_runs_with_a_space_between() {
    assert_eq!(
        tokenize("**a** **b**"),
        vec![vec![bold("**a**"), plain(" "), bold("**b**")], blank()]
    );
}

#[test]
fn bold_closes_at_the_nearest_delimiter() {
    assert_eq!(
        tokenize("**a**b**"),
        vec![vec![bold("**a**"), plain("b"), plain("**")], blank()]
    );
}

#[test]
fn blank_lines_are_flushed_before_the_next_row() {
    assert_eq!(
        tokenize("a\n\n\nb"),
        vec![vec![plain("a")], blank(), blank(), vec![plain("b")], blank()]
    );
}

#[test]
fn trailing_blank_lines_come_before_the_closing_row() {
    assert_eq!(tokenize("a\n\n"), vec![vec![plain("a")], blank(), blank()]);
    assert_eq!(tokenize("a\n   \n"), vec![vec![plain("a")], blank(), blank()]);
}

#[test]
fn a_final_line_feed_adds_no_line() {
    assert_eq!(tokenize("a\n"), vec![vec![plain("a")], blank()]);
}

#[test]
fn empty_input_gives_the_closing_row_only() {
    assert_eq!(tokenize(""), vec![blank()]);
}

#[test]
fn heading_tab_and_bold_document() {
    let input =
        "# Heading 1\n\tExample text for textarea1\nExample text for textarea 2 **with bold**";
    assert_eq!(
        tokenize(input),
        vec![
            vec![h1("# Heading 1")],
            vec![plain("    Example text for textarea1")],
            vec![plain("Example text for textarea 2 "), bold("**with bold**")],
            blank(),
        ]
    );
}

#[test]
fn empty_bold_is_plain_text() {
    assert_eq!(tokenize("****"), vec![vec![plain("****")], blank()]);
    assert_eq!(tokenize("a ____ b"), vec![vec![plain("a "), plain("____ b")], blank()]);
}

#[test]
fn unclosed_bold_is_plain_text() {
    assert_eq!(tokenize("**abc"), vec![vec![plain("**abc")], blank()]);
    assert_eq!(tokenize("x **abc"), vec![vec![plain("x "), plain("**abc")], blank()]);
}

#[test]
fn underscores_make_bold_too() {
    assert_eq!(
        tokenize("a __b__ c"),
        vec![vec![plain("a "), bold("__b__"), plain(" "), plain("c")], blank()]
    );
}

#[test]
fn mixed_delimiters_do_not_close_each_other() {
    assert_eq!(tokenize("**a__"), vec![vec![plain("**a__")], blank()]);
}

#[test]
fn blank_text_before_bold_is_dropped() {
    assert_eq!(tokenize("  **a**"), vec![vec![bold("**a**")], blank()]);
}

#[test]
fn white_space_after_bold_is_kept_as_it_is() {
    assert_eq!(
        tokenize("**a**\u{3000}\u{a0}b"),
        vec![vec![bold("**a**"), plain("\u{3000}\u{a0}"), plain("b")], blank()]
    );
    assert_eq!(tokenize("**a**  "), vec![vec![bold("**a**"), plain("  ")], blank()]);
}

#[test]
fn line_endings_are_normalized() {
    let expected = vec![vec![plain("a")], vec![plain("b")], blank()];
    assert_eq!(tokenize("a\r\nb"), expected);
    assert_eq!(tokenize("a\rb"), expected);
    assert_eq!(tokenize("a\nb"), expected);
    assert_eq!(
        tokenize("a\r\rb"),
        vec![vec![plain("a")], blank(), vec![plain("b")], blank()]
    );
}

#[test]
fn escaped_line_feed_does_not_break_the_line() {
    assert_eq!(
        tokenize("a\\nb"),
        vec![vec![plain("a"), bold("__LITERAL_NEWLINE__"), plain("b")], blank()]
    );
}

#[test]
fn tabs_become_four_spaces() {
    assert_eq!(tokenize("a\tb"), vec![vec![plain("a    b")], blank()]);
    assert_eq!(tokenize("\t\t"), vec![blank(), blank()]);
}

#[test]
fn unicode_white_space_makes_a_line_blank() {
    assert_eq!(tokenize("\u{2003}\u{85}\n\u{b}\u{c}"), vec![blank(), blank(), blank()]);
    assert_eq!(tokenize("\u{200b}"), vec![vec![plain("\u{200b}")], blank()]);
}

#[test]
fn extract_strings_keeps_markers() {
    let processor = TextProcessor::new();
    let rows = processor.process_markdown("# T\na **b**\n\nc".to_string());
    assert_eq!(
        processor.extract_strings(rows),
        vec![
            vec!["# T".to_string()],
            vec!["a ".to_string(), "**b**".to_string()],
            vec!["".to_string()],
            vec!["c".to_string()],
            vec!["".to_string()],
        ]
    );
}

#[test]
fn markdown_to_string_joins_cells_and_rows() {
    let processor = TextProcessor::new();
    let grid = vec![
        vec!["a ".to_string(), "**b**".to_string()],
        vec![],
        vec!["c".to_string()],
    ];
    assert_eq!(processor.markdown_to_string(grid), "a **b**\n\nc");
    assert_eq!(processor.markdown_to_string(vec![]), "");
    assert_eq!(processor.markdown_to_string(vec![vec![]]), "");
    assert_eq!(processor.markdown_to_string(vec![vec![], vec![]]), "\n");
}

#[test]
fn plain_rows_round_trip() {
    let processor = TextProcessor::new();
    let source = "first line\n   \nsecond # line\n";
    let rows = processor.process_markdown(source.to_string());
    let grid = processor.extract_strings(rows);
    assert_eq!(processor.markdown_to_string(grid), "first line\n\nsecond # line\n");
}

#[test]
fn tokenizing_what_comes_back_from_the_grid_changes_nothing() {
    let alphabet = [' ', '#', '*', '_', 'a', '\n'];
    let processor = TextProcessor::new();
    for len in 0..6u32 {
        for mut code in 0..(alphabet.len() as u64).pow(len) {
            let mut source = String::new();
            for _ in 0..len {
                source.push(alphabet[(code % alphabet.len() as u64) as usize]);
                code /= alphabet.len() as u64;
            }
            let rows = processor.process_markdown(source.clone());
            let grid = processor.extract_strings(rows.clone());
            let back = processor.markdown_to_string(grid);
            assert_eq!(processor.process_markdown(back), rows, "{source:?}");
        }
    }
}

#[test]
fn every_row_is_blank_a_heading_or_inline_runs() {
    let processor = TextProcessor::new();
    let source = "# T\n\n  **a** b\n####### x\n__c__ **d**\n   \n";
    let rows = processor.process_markdown(source.to_string());
    for row in &rows {
        let blank = row == &vec![MarkDownElements::EmptySpace];
        let heading = row.len() == 1 && matches!(row[0], MarkDownElements::Heading(_));
        let inline = !row.is_empty()
            && row.iter().all(|cell| {
                matches!(
                    cell,
                    MarkDownElements::PlainText(_) | MarkDownElements::BoldText(_)
                )
            });
        assert!(blank || heading || inline, "{row:?}");
    }
    assert_eq!(rows.last(), Some(&vec![MarkDownElements::EmptySpace]));
}

#[test]
fn a_source_without_marks_comes_back_with_all_that_it_shows() {
    let processor = TextProcessor::new();
    let shown = |text: &str| -> String { text.chars().filter(|c| !c.is_whitespace()).collect() };
    for source in [
        "",
        "first line\n   \nsecond # line\n",
        "a\tb\r\nc\rd",
        "  x * y _ z  \n\n\n",
        "tab\there\u{3000}and\u{a0}there",
        "1 # not a heading\n\\ n",
    ] {
        let rows = processor.process_markdown(source.to_string());
        let back = processor.markdown_to_string(processor.extract_strings(rows));
        assert_eq!(shown(&back), shown(source), "{source:?}");
    }
}
