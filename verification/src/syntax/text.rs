//! The tokenizer: Markdown source to rows of text runs, and the projections
//! of those rows onto plain strings.

use vstd::prelude::*;
use vstd::string::StringExecFns;
use crate::numbers::{decimal, push_decimal};
use crate::strings::{
    char_is_whitespace, from_chars, leading_count, leading_whitespace, push_range, range_is_blank,
    replace_chars, split_lines, to_chars, trim_range,
};
use crate::syntax::model::{
    blank_rows, bold_span, concat, escaped_newline, find_opener, find_pair, grid_source,
    grid_texts, heading_level, inline_runs, join_lines, line_row, newline_placeholder, normalize,
    plain_unless_blank, row_texts, rows_of_lines, tagged_grid, tagged_heading, tagged_plain,
    tagged_rows, tagged_runs, tokenize, TextRun,
};

verus! {

/// A heading by its level; the text keeps the `#` markers it was written with.
#[derive(Debug, PartialEq, Clone)]
pub enum HeadingLevel {
    H1(String),
    H2(String),
    H3(String),
    H4(String),
    H5(String),
    H6(String),
}

/// One cell of a row.
#[derive(Debug, PartialEq, Clone)]
pub enum MarkDownElements {
    Heading(HeadingLevel),
    PlainText(String),
    BoldText(String),
    EmptySpace,
}

impl HeadingLevel {
    /// The level, 1 to 6.
    pub open spec fn level(&self) -> nat {
        match self {
            HeadingLevel::H1(_) => 1,
            HeadingLevel::H2(_) => 2,
            HeadingLevel::H3(_) => 3,
            HeadingLevel::H4(_) => 4,
            HeadingLevel::H5(_) => 5,
            HeadingLevel::H6(_) => 6,
        }
    }

    /// The text of the heading.
    pub open spec fn text(&self) -> Seq<char> {
        match self {
            HeadingLevel::H1(t) => t@,
            HeadingLevel::H2(t) => t@,
            HeadingLevel::H3(t) => t@,
            HeadingLevel::H4(t) => t@,
            HeadingLevel::H5(t) => t@,
            HeadingLevel::H6(t) => t@,
        }
    }
}

impl View for MarkDownElements {
    type V = TextRun;

    open spec fn view(&self) -> TextRun {
        match self {
            MarkDownElements::Heading(h) => TextRun::Heading { level: h.level(), text: h.text() },
            MarkDownElements::PlainText(t) => TextRun::Plain { text: t@ },
            MarkDownElements::BoldText(t) => TextRun::Bold { text: t@ },
            MarkDownElements::EmptySpace => TextRun::Blank,
        }
    }
}

impl DeepView for MarkDownElements {
    type V = TextRun;

    open spec fn deep_view(&self) -> TextRun {
        self@
    }
}

/// `o` moved `k` places to the right.
pub open spec fn shifted(o: Option<nat>, k: nat) -> Option<nat> {
    match o {
        Some(i) => Some(i + k),
        None => None,
    }
}

/// What an executable search returned, as a mathematical index.
pub open spec fn found(o: Option<usize>) -> Option<nat> {
    match o {
        Some(i) => Some(i as nat),
        None => None,
    }
}

/// The number of times `c` stands at the start of `line`.
fn count_leading(line: &Vec<char>, c: char) -> (n: usize)
    ensures
        n == leading_count(line@, c),
        n <= line.len(),
{
    let mut i: usize = 0;
    assert(line@.skip(0) =~= line@);
    while i < line.len() && line[i] == c
        invariant
            i <= line.len(),
            leading_count(line@, c) == i + leading_count(line@.skip(i as int), c),
        decreases line.len() - i,
    {
        assert(line@.skip(i as int).skip(1) =~= line@.skip(i + 1));
        i += 1;
    }
    i
}

/// The number of white-space characters in `line` from index `from` on.
fn whitespace_run(line: &Vec<char>, from: usize) -> (n: usize)
    requires
        from <= line.len(),
    ensures
        n == leading_whitespace(line@.skip(from as int)),
        from + n <= line.len(),
{
    let mut i: usize = from;
    while i < line.len() && char_is_whitespace(line[i])
        invariant
            from <= i <= line.len(),
            leading_whitespace(line@.skip(from as int)) == (i - from) + leading_whitespace(
                line@.skip(i as int),
            ),
        decreases line.len() - i,
    {
        assert(line@.skip(i as int).skip(1) =~= line@.skip(i + 1));
        i += 1;
    }
    i - from
}

/// The first place from `from` on where `c` stands twice in a row, counted
/// from `from`.
fn find_pair_from(line: &Vec<char>, from: usize, c: char) -> (r: Option<usize>)
    requires
        from <= line.len(),
    ensures
        found(r) == find_pair(line@.skip(from as int), c),
        r matches Some(i) ==> from + i + 2 <= line.len(),
{
    let mut i: usize = from;
    while line.len() - i >= 2
        invariant
            from <= i <= line.len(),
            find_pair(line@.skip(from as int), c) == shifted(
                find_pair(line@.skip(i as int), c),
                (i - from) as nat,
            ),
        decreases line.len() - i,
    {
        if line[i] == c && line[i + 1] == c {
            return Some(i - from);
        }
        assert(line@.skip(i as int).skip(1) =~= line@.skip(i + 1));
        i += 1;
    }
    None
}

/// The first place from `from` on where a bold delimiter stands, counted from
/// `from`.
fn find_opener_from(line: &Vec<char>, from: usize) -> (r: Option<usize>)
    requires
        from <= line.len(),
    ensures
        found(r) == find_opener(line@.skip(from as int)),
        r matches Some(i) ==> from + i + 2 <= line.len(),
{
    let mut i: usize = from;
    while line.len() - i >= 2
        invariant
            from <= i <= line.len(),
            find_opener(line@.skip(from as int)) == shifted(
                find_opener(line@.skip(i as int)),
                (i - from) as nat,
            ),
        decreases line.len() - i,
    {
        let c = line[i];
        if (c == '*' || c == '_') && line[i + 1] == c {
            return Some(i - from);
        }
        assert(line@.skip(i as int).skip(1) =~= line@.skip(i + 1));
        i += 1;
    }
    None
}

/// The length of the bold run that stands at `from`, if one does.
fn bold_span_at(line: &Vec<char>, from: usize) -> (r: Option<usize>)
    requires
        from <= line.len(),
    ensures
        found(r) == bold_span(line@.skip(from as int)),
        r matches Some(n) ==> 5 <= n && from + n <= line.len(),
{
    if line.len() - from < 2 {
        return None;
    }
    let c = line[from];
    if !((c == '*' || c == '_') && line[from + 1] == c) {
        return None;
    }
    assert(line@.skip(from as int).skip(2) =~= line@.skip(from + 2));
    match find_pair_from(line, from + 2, c) {
        Some(inner) => {
            if inner > 0 {
                Some(inner + 4)
            } else {
                None
            }
        },
        None => None,
    }
}

/// The heading level of `line`, if it is a heading.
fn heading_of(line: &Vec<char>) -> (r: Option<usize>)
    ensures
        found(r) == heading_level(line@),
        r matches Some(n) ==> 1 <= n <= 6,
{
    let n = count_leading(line, '#');
    if 1 <= n && n <= 6 && line.len() - n > 1 && line[n] == ' ' {
        Some(n)
    } else {
        None
    }
}

/// The heading cell of level `level` with the given text.
fn heading_cell(level: usize, text: String) -> (cell: MarkDownElements)
    requires
        1 <= level <= 6,
    ensures
        cell@ == (TextRun::Heading { level: level as nat, text: text@ }),
{
    let heading = if level == 1 {
        HeadingLevel::H1(text)
    } else if level == 2 {
        HeadingLevel::H2(text)
    } else if level == 3 {
        HeadingLevel::H3(text)
    } else if level == 4 {
        HeadingLevel::H4(text)
    } else if level == 5 {
        HeadingLevel::H5(text)
    } else {
        HeadingLevel::H6(text)
    };
    MarkDownElements::Heading(heading)
}

/// What a vector of cells shows after one more cell has been pushed.
proof fn lemma_cells_push(before: Vec<MarkDownElements>, after: Vec<MarkDownElements>, cell: MarkDownElements)
    requires
        after@ == before@.push(cell),
    ensures
        after.deep_view() == before.deep_view().push(cell@),
{
    assert(after.deep_view() =~= before.deep_view().push(cell@));
}

/// What a vector of rows shows after one more row has been pushed.
proof fn lemma_rows_push(
    before: Vec<Vec<MarkDownElements>>,
    after: Vec<Vec<MarkDownElements>>,
    row: Vec<MarkDownElements>,
)
    requires
        after@ == before@.push(row),
    ensures
        after.deep_view() == before.deep_view().push(row.deep_view()),
{
    assert(after.deep_view() =~= before.deep_view().push(row.deep_view()));
}

/// Pushes a plain cell holding `line[from..to]` unless that text is blank.
fn push_plain_unless_blank(row: &mut Vec<MarkDownElements>, line: &Vec<char>, from: usize, to: usize)
    requires
        from <= to <= line.len(),
    ensures
        final(row).deep_view() == old(row).deep_view() + plain_unless_blank(
            line@.subrange(from as int, to as int),
        ),
{
    if !range_is_blank(line, from, to) {
        let ghost before = *row;
        let text = from_chars(line, from, to);
        let cell = MarkDownElements::PlainText(text);
        row.push(cell);
        proof {
            lemma_cells_push(before, *row, cell);
        }
        assert(row.deep_view() =~= before.deep_view() + plain_unless_blank(
            line@.subrange(from as int, to as int),
        ));
    } else {
        assert(row.deep_view() =~= row.deep_view() + plain_unless_blank(
            line@.subrange(from as int, to as int),
        ));
    }
}

/// The inline runs of a line.
fn scan_inline(line: &Vec<char>) -> (row: Vec<MarkDownElements>)
    ensures
        row.deep_view() == inline_runs(line@),
{
    let mut row: Vec<MarkDownElements> = Vec::new();
    let mut pos: usize = 0;
    assert(line@.skip(0) =~= line@);
    assert(row.deep_view() =~= Seq::<TextRun>::empty());
    while pos < line.len()
        invariant
            pos <= line.len(),
            row.deep_view() + inline_runs(line@.skip(pos as int)) == inline_runs(line@),
        decreases line.len() - pos,
    {
        let ghost rest = line@.skip(pos as int);
        let ghost shown = row.deep_view();
        match bold_span_at(line, pos) {
            Some(n) => {
                let ghost before = row;
                let bold = MarkDownElements::BoldText(from_chars(line, pos, pos + n));
                row.push(bold);
                proof {
                    lemma_cells_push(before, row, bold);
                }
                assert(rest.skip(n as int) =~= line@.skip(pos + n));
                let gap = whitespace_run(line, pos + n);
                if gap > 0 {
                    let ghost before = row;
                    let space = MarkDownElements::PlainText(
                        from_chars(line, pos + n, pos + n + gap),
                    );
                    row.push(space);
                    proof {
                        lemma_cells_push(before, row, space);
                    }
                    assert(space@.text() =~= rest.subrange(n as int, n + gap));
                }
                assert(bold@.text() =~= rest.take(n as int));
                assert(rest.skip(n + gap) =~= line@.skip(pos + n + gap));
                assert(row.deep_view() + inline_runs(line@.skip(pos + n + gap)) =~= shown
                    + inline_runs(rest));
                pos = pos + n + gap;
            },
            None => {
                match find_opener_from(line, pos) {
                    Some(i) => {
                        if i > 0 {
                            push_plain_unless_blank(&mut row, line, pos, pos + i);
                            assert(line@.subrange(pos as int, pos + i) =~= rest.take(i as int));
                            assert(rest.skip(i as int) =~= line@.skip(pos + i));
                            assert(row.deep_view() + inline_runs(line@.skip(pos + i)) =~= shown
                                + inline_runs(rest));
                            pos = pos + i;
                        } else {
                            push_plain_unless_blank(&mut row, line, pos, line.len());
                            assert(line@.subrange(pos as int, line.len() as int) =~= rest);
                            pos = line.len();
                            assert(inline_runs(line@.skip(pos as int)) =~= Seq::<TextRun>::empty());
                        }
                    },
                    None => {
                        push_plain_unless_blank(&mut row, line, pos, line.len());
                        assert(line@.subrange(pos as int, line.len() as int) =~= rest);
                        pos = line.len();
                        assert(inline_runs(line@.skip(pos as int)) =~= Seq::<TextRun>::empty());
                    },
                }
            },
        }
    }
    row
}

/// The source as the tokenizer reads it.
fn normalize_chars(input: &Vec<char>) -> (out: Vec<char>)
    ensures
        out@ == normalize(input@),
{
    let escaped: Vec<char> = vec!['\\', 'n'];
    let placeholder: Vec<char> = vec![
        '_', '_', 'L', 'I', 'T', 'E', 'R', 'A', 'L', '_', 'N', 'E', 'W', 'L', 'I', 'N', 'E', '_',
        '_',
    ];
    let tab: Vec<char> = vec!['\t'];
    let spaces: Vec<char> = vec![' ', ' ', ' ', ' '];
    let crlf: Vec<char> = vec!['\r', '\n'];
    let cr: Vec<char> = vec!['\r'];
    let lf: Vec<char> = vec!['\n'];
    assert(escaped@ =~= escaped_newline());
    assert(placeholder@ =~= newline_placeholder());
    assert(tab@ =~= seq!['\t']);
    assert(spaces@ =~= seq![' ', ' ', ' ', ' ']);
    assert(crlf@ =~= seq!['\r', '\n']);
    assert(cr@ =~= seq!['\r']);
    assert(lf@ =~= seq!['\n']);
    let hidden = replace_chars(input, &escaped, &placeholder);
    let widened = replace_chars(&hidden, &tab, &spaces);
    let joined = replace_chars(&widened, &crlf, &lf);
    replace_chars(&joined, &cr, &lf)
}

/// The row of a line that is not blank.
fn row_of_line(line: &Vec<char>) -> (row: Vec<MarkDownElements>)
    ensures
        row.deep_view() == line_row(line@),
{
    match heading_of(line) {
        Some(level) => {
            let text = from_chars(line, 0, line.len());
            assert(text@ =~= line@);
            let cell = heading_cell(level, text);
            let row = vec![cell];
            assert(row.deep_view() =~= seq![cell@]);
            row
        },
        None => scan_inline(line),
    }
}

/// Pushes `n` rows of one empty cell each.
fn push_blank_rows(rows: &mut Vec<Vec<MarkDownElements>>, n: usize)
    ensures
        final(rows).deep_view() == old(rows).deep_view() + blank_rows(n as nat),
{
    let mut k: usize = 0;
    assert(rows.deep_view() =~= old(rows).deep_view() + blank_rows(0));
    while k < n
        invariant
            k <= n,
            rows.deep_view() == old(rows).deep_view() + blank_rows(k as nat),
        decreases n - k,
    {
        let ghost before = *rows;
        let row = vec![MarkDownElements::EmptySpace];
        assert(row.deep_view() =~= seq![TextRun::Blank]);
        rows.push(row);
        proof {
            lemma_rows_push(before, *rows, row);
        }
        assert(rows.deep_view() =~= old(rows).deep_view() + blank_rows((k + 1) as nat));
        k += 1;
    }
}

/// What a vector of strings shows after one more string has been pushed.
proof fn lemma_texts_push(before: Vec<String>, after: Vec<String>, text: String)
    requires
        after@ == before@.push(text),
    ensures
        after.deep_view() == before.deep_view().push(text@),
{
    assert(after.deep_view() =~= before.deep_view().push(text@));
}

/// What a grid of strings shows after one more row has been pushed.
proof fn lemma_grid_push(before: Vec<Vec<String>>, after: Vec<Vec<String>>, row: Vec<String>)
    requires
        after@ == before@.push(row),
    ensures
        after.deep_view() == before.deep_view().push(row.deep_view()),
{
    assert(after.deep_view() =~= before.deep_view().push(row.deep_view()));
}

/// The tagged heading cell of `line`, if it is a heading with a title.
fn tagged_heading_of(line: &Vec<char>) -> (r: Option<String>)
    ensures
        match r {
            Some(cell) => tagged_heading(line@) == Some(cell@),
            None => tagged_heading(line@) is None,
        },
{
    let n = count_leading(line, '#');
    if 1 <= n && n < line.len() && line[n] == ' ' {
        let (a, b) = trim_range(line, n + 1, line.len());
        assert(line@.subrange(n + 1, line.len() as int) =~= line@.skip(n + 1));
        if b > a {
            let mut cell = String::new();
            cell.append("header");
            push_decimal(&mut cell, n);
            cell.append("|");
            push_range(&mut cell, line, a, b);
            assert(cell@ =~= "header"@ + decimal(n as nat) + "|"@ + line@.subrange(
                a as int,
                b as int,
            ));
            return Some(cell);
        }
    }
    None
}

/// Pushes a tagged plain cell holding `line[from..to]` trimmed, unless that
/// text is blank.
fn push_tagged_plain(row: &mut Vec<String>, line: &Vec<char>, from: usize, to: usize)
    requires
        from <= to <= line.len(),
    ensures
        final(row).deep_view() == old(row).deep_view() + tagged_plain(
            line@.subrange(from as int, to as int),
        ),
{
    let (a, b) = trim_range(line, from, to);
    if b > a {
        let ghost before = *row;
        let mut cell = String::new();
        cell.append("plain|");
        push_range(&mut cell, line, a, b);
        assert(cell@ =~= "plain|"@ + line@.subrange(a as int, b as int));
        row.push(cell);
        proof {
            lemma_texts_push(before, *row, cell);
        }
        assert(row.deep_view() =~= before.deep_view() + tagged_plain(
            line@.subrange(from as int, to as int),
        ));
    } else {
        assert(row.deep_view() =~= row.deep_view() + tagged_plain(
            line@.subrange(from as int, to as int),
        ));
    }
}

/// The tagged inline cells of a line.
fn scan_tagged(line: &Vec<char>) -> (row: Vec<String>)
    ensures
        row.deep_view() == tagged_runs(line@),
{
    let mut row: Vec<String> = Vec::new();
    let mut pos: usize = 0;
    assert(line@.skip(0) =~= line@);
    assert(row.deep_view() =~= Seq::<Seq<char>>::empty());
    while pos < line.len()
        invariant
            pos <= line.len(),
            row.deep_view() + tagged_runs(line@.skip(pos as int)) == tagged_runs(line@),
        decreases line.len() - pos,
    {
        let ghost rest = line@.skip(pos as int);
        let ghost shown = row.deep_view();
        match bold_span_at(line, pos) {
            Some(n) => {
                let ghost before = row;
                let mut cell = String::new();
                cell.append("bold|");
                push_range(&mut cell, line, pos + 2, pos + n - 2);
                assert(cell@ =~= "bold|"@ + rest.subrange(2, n - 2));
                row.push(cell);
                proof {
                    lemma_texts_push(before, row, cell);
                }
                assert(rest.skip(n as int) =~= line@.skip(pos + n));
                assert(row.deep_view() + tagged_runs(line@.skip(pos + n)) =~= shown + tagged_runs(
                    rest,
                ));
                pos = pos + n;
            },
            None => {
                match find_opener_from(line, pos) {
                    Some(i) => {
                        if i > 0 {
                            push_tagged_plain(&mut row, line, pos, pos + i);
                            assert(line@.subrange(pos as int, pos + i) =~= rest.take(i as int));
                            assert(rest.skip(i as int) =~= line@.skip(pos + i));
                            assert(row.deep_view() + tagged_runs(line@.skip(pos + i)) =~= shown
                                + tagged_runs(rest));
                            pos = pos + i;
                        } else {
                            push_tagged_plain(&mut row, line, pos, line.len());
                            assert(line@.subrange(pos as int, line.len() as int) =~= rest);
                            pos = line.len();
                            assert(tagged_runs(line@.skip(pos as int)) =~= Seq::<
                                Seq<char>,
                            >::empty());
                        }
                    },
                    None => {
                        push_tagged_plain(&mut row, line, pos, line.len());
                        assert(line@.subrange(pos as int, line.len() as int) =~= rest);
                        pos = line.len();
                        assert(tagged_runs(line@.skip(pos as int)) =~= Seq::<Seq<char>>::empty());
                    },
                }
            },
        }
    }
    row
}

/// Tokenizes `input` into a grid of tagged strings: a heading as `header`,
/// its level, a bar and its title, a bold run as `bold`, a bar and its
/// inner text, other text as `plain`, a bar and the text trimmed. Blank lines
/// give no row.
pub fn process_text(input: String) -> (grid: Vec<Vec<String>>)
    ensures
        grid.deep_view() == tagged_grid(input@),
{
    let chars = to_chars(input.as_str());
    let text = normalize_chars(&chars);
    let ls = split_lines(&text);
    let ghost all = ls.deep_view();
    let mut grid: Vec<Vec<String>> = Vec::new();
    let mut k: usize = 0;
    assert(all.take(0) =~= Seq::<Seq<char>>::empty());
    assert(grid.deep_view() =~= Seq::<Seq<Seq<char>>>::empty());
    while k < ls.len()
        invariant
            k <= ls.len(),
            all == ls.deep_view(),
            grid.deep_view() == tagged_rows(all.take(k as int)),
        decreases ls.len() - k,
    {
        let line = &ls[k];
        let ghost shown = grid.deep_view();
        assert(all.take(k + 1).last() =~= line@);
        assert(all.take(k + 1).drop_last() =~= all.take(k as int));
        assert(line@.subrange(0, line.len() as int) =~= line@);
        if !range_is_blank(line, 0, line.len()) {
            let row = match tagged_heading_of(line) {
                Some(cell) => {
                    let row = vec![cell];
                    assert(row.deep_view() =~= seq![cell@]);
                    row
                },
                None => scan_tagged(line),
            };
            if row.len() > 0 {
                let ghost before = grid;
                grid.push(row);
                proof {
                    lemma_grid_push(before, grid, row);
                }
            }
        }
        assert(grid.deep_view() =~= tagged_rows(all.take(k + 1)));
        k += 1;
    }
    assert(all.take(ls.len() as int) =~= all);
    grid
}

/// The text that a cell shows.
fn cell_text(cell: &MarkDownElements) -> (text: String)
    ensures
        text@ == cell@.text(),
{
    match cell {
        MarkDownElements::Heading(heading) => match heading {
            HeadingLevel::H1(text) => text.clone(),
            HeadingLevel::H2(text) => text.clone(),
            HeadingLevel::H3(text) => text.clone(),
            HeadingLevel::H4(text) => text.clone(),
            HeadingLevel::H5(text) => text.clone(),
            HeadingLevel::H6(text) => text.clone(),
        },
        MarkDownElements::PlainText(text) => text.clone(),
        MarkDownElements::BoldText(text) => text.clone(),
        MarkDownElements::EmptySpace => String::new(),
    }
}

/// Turns Markdown source into rows of cells and rows of cells into strings.
pub struct TextProcessor {
    language: String,
}

impl TextProcessor {
    /// The name of the language that the processor reads.
    pub closed spec fn language(&self) -> Seq<char> {
        self.language@
    }

    /// A processor for Markdown.
    pub fn new() -> (processor: Self)
        ensures
            processor.language() == "markdown"@,
    {
        Self { language: "markdown".to_string() }
    }

    /// Tokenizes `input`: the result shows exactly the rows that the source
    /// denotes. Every input is accepted.
    pub fn process_markdown(&self, input: String) -> (rows: Vec<Vec<MarkDownElements>>)
        ensures
            rows.deep_view() == tokenize(input@),
    {
        let chars = to_chars(input.as_str());
        let text = normalize_chars(&chars);
        let ls = split_lines(&text);
        let ghost all = ls.deep_view();
        let mut rows: Vec<Vec<MarkDownElements>> = Vec::new();
        let mut pending: usize = 0;
        let mut k: usize = 0;
        assert(all.skip(0) =~= all);
        assert(rows.deep_view() =~= Seq::<Seq<TextRun>>::empty());
        while k < ls.len()
            invariant
                k <= ls.len(),
                pending <= k,
                all == ls.deep_view(),
                rows.deep_view() + rows_of_lines(all.skip(k as int), pending as nat)
                    == rows_of_lines(all, 0),
            decreases ls.len() - k,
        {
            let line = &ls[k];
            let ghost rest = all.skip(k as int);
            let ghost shown = rows.deep_view();
            assert(rest[0] =~= line@);
            assert(rest.skip(1) =~= all.skip(k + 1));
            assert(line@.subrange(0, line.len() as int) =~= line@);
            if range_is_blank(line, 0, line.len()) {
                pending += 1;
            } else {
                push_blank_rows(&mut rows, pending);
                let row = row_of_line(line);
                if row.len() > 0 {
                    let ghost before = rows;
                    rows.push(row);
                    proof {
                        lemma_rows_push(before, rows, row);
                    }
                }
                assert(rows.deep_view() + rows_of_lines(all.skip(k + 1), 0) =~= shown
                    + rows_of_lines(rest, pending as nat));
                pending = 0;
            }
            k += 1;
        }
        let ghost shown = rows.deep_view();
        push_blank_rows(&mut rows, pending);
        push_blank_rows(&mut rows, 1);
        assert(rows.deep_view() =~= shown + blank_rows((pending + 1) as nat));
        rows
    }

    /// Tokenizes `input` into a grid of tagged strings, as [`process_text`]
    /// does.
    pub fn process_text(&self, input: String) -> (grid: Vec<Vec<String>>)
        ensures
            grid.deep_view() == tagged_grid(input@),
    {
        process_text(input)
    }

    /// The grid of strings that `input` shows: each cell by its text, an
    /// empty cell as the empty string.
    pub fn extract_strings(&self, input: Vec<Vec<MarkDownElements>>) -> (grid: Vec<Vec<String>>)
        ensures
            grid.deep_view() == grid_texts(input.deep_view()),
    {
        let mut grid: Vec<Vec<String>> = Vec::new();
        let mut i: usize = 0;
        while i < input.len()
            invariant
                i <= input.len(),
                grid.len() == i,
                forall|k: int|
                    0 <= k < i ==> (#[trigger] grid[k]).deep_view() == row_texts(
                        input[k].deep_view(),
                    ),
            decreases input.len() - i,
        {
            let row = &input[i];
            let mut texts: Vec<String> = Vec::new();
            let mut j: usize = 0;
            while j < row.len()
                invariant
                    j <= row.len(),
                    texts.len() == j,
                    forall|k: int| 0 <= k < j ==> (#[trigger] texts[k])@ == row[k]@.text(),
                decreases row.len() - j,
            {
                texts.push(cell_text(&row[j]));
                j += 1;
            }
            assert(texts.deep_view() =~= row_texts(row.deep_view()));
            grid.push(texts);
            i += 1;
        }
        assert(grid.deep_view() =~= grid_texts(input.deep_view()));
        grid
    }

    /// The Markdown source of a grid: the cells of a row joined with nothing
    /// between them, the rows joined by line feeds.
    pub fn markdown_to_string(&self, input: Vec<Vec<String>>) -> (source: String)
        ensures
            source@ == grid_source(input.deep_view()),
    {
        let ghost rows = input.deep_view().map_values(|row: Seq<Seq<char>>| concat(row));
        let mut source = String::new();
        let mut i: usize = 0;
        assert(rows.take(0) =~= Seq::<Seq<char>>::empty());
        while i < input.len()
            invariant
                i <= input.len(),
                rows == input.deep_view().map_values(|row: Seq<Seq<char>>| concat(row)),
                source@ == join_lines(rows.take(i as int)),
            decreases input.len() - i,
        {
            let row = &input[i];
            let ghost cells = row.deep_view();
            let ghost before = source@;
            if i > 0 {
                source.push('\n');
            }
            let ghost start = source@;
            let mut j: usize = 0;
            assert(cells.take(0) =~= Seq::<Seq<char>>::empty());
            while j < row.len()
                invariant
                    j <= row.len(),
                    cells == row.deep_view(),
                    source@ == start + concat(cells.take(j as int)),
                decreases row.len() - j,
            {
                source.append(row[j].as_str());
                assert(cells.take(j + 1).drop_last() =~= cells.take(j as int));
                j += 1;
            }
            assert(cells.take(row.len() as int) =~= cells);
            assert(rows.take(i + 1).drop_last() =~= rows.take(i as int));
            assert(rows.take(i + 1).last() == concat(cells));
            assert(source@ =~= join_lines(rows.take(i + 1)));
            i += 1;
        }
        assert(rows.take(input.len() as int) =~= rows);
        source
    }
}

} // verus!
