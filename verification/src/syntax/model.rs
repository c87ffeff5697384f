//! The mathematical model of tokenization: what rows of text runs a Markdown
//! source denotes. The executable tokenizer is proved against these
//! definitions.

use vstd::prelude::*;
use crate::numbers::decimal;
use crate::strings::{
    is_blank, leading_count, leading_whitespace, lemma_leading_count_bound,
    lemma_leading_whitespace_bound, lines, replace_all, trimmed,
};

verus! {

/// One inline run of styled text, or a blank line.
pub enum TextRun {
    /// A heading of level 1 to 6; the text keeps its `#` markers.
    Heading { level: nat, text: Seq<char> },
    /// Unstyled text.
    Plain { text: Seq<char> },
    /// Bold text; the text keeps its delimiters.
    Bold { text: Seq<char> },
    /// A blank line.
    Blank,
}

impl TextRun {
    /// The text that the run shows in its cell.
    pub open spec fn text(self) -> Seq<char> {
        match self {
            TextRun::Heading { text, .. } => text,
            TextRun::Plain { text } => text,
            TextRun::Bold { text } => text,
            TextRun::Blank => Seq::empty(),
        }
    }
}

/// The two characters backslash and `n`, which stand for a line feed that is
/// part of the text.
pub open spec fn escaped_newline() -> Seq<char> {
    seq!['\\', 'n']
}

/// The token that takes the place of an escaped line feed.
pub open spec fn newline_placeholder() -> Seq<char> {
    seq![
        '_', '_', 'L', 'I', 'T', 'E', 'R', 'A', 'L', '_', 'N', 'E', 'W', 'L', 'I', 'N', 'E', '_',
        '_',
    ]
}

/// The source as the tokenizer reads it: escaped line feeds hidden behind
/// their placeholder, tabs widened to four spaces, and every line ending
/// turned into a single line feed.
pub open spec fn normalize(input: Seq<char>) -> Seq<char> {
    let hidden = replace_all(input, escaped_newline(), newline_placeholder());
    let widened = replace_all(hidden, seq!['\t'], seq![' ', ' ', ' ', ' ']);
    let joined = replace_all(widened, seq!['\r', '\n'], seq!['\n']);
    replace_all(joined, seq!['\r'], seq!['\n'])
}

/// The level of the heading that `line` is, if it is one: one to six `#`,
/// then a space, then at least one more character.
pub open spec fn heading_level(line: Seq<char>) -> Option<nat> {
    let n = leading_count(line, '#');
    if 1 <= n <= 6 && n + 1 < line.len() && line[n as int] == ' ' {
        Some(n)
    } else {
        None
    }
}

/// Whether `c` is a character that bold delimiters are made of.
pub open spec fn is_bold_mark(c: char) -> bool {
    c == '*' || c == '_'
}

/// The first index at which `c` stands twice in a row in `s`.
pub open spec fn find_pair(s: Seq<char>, c: char) -> Option<nat>
    decreases s.len(),
{
    if s.len() < 2 {
        None
    } else if s[0] == c && s[1] == c {
        Some(0)
    } else {
        match find_pair(s.skip(1), c) {
            Some(i) => Some(i + 1),
            None => None,
        }
    }
}

/// The first index at which a bold delimiter, `**` or `__`, stands in `s`.
pub open spec fn find_opener(s: Seq<char>) -> Option<nat>
    decreases s.len(),
{
    if s.len() < 2 {
        None
    } else if is_bold_mark(s[0]) && s[1] == s[0] {
        Some(0)
    } else {
        match find_opener(s.skip(1)) {
            Some(i) => Some(i + 1),
            None => None,
        }
    }
}

/// The length of the bold run that `s` begins with, delimiters included, if
/// it begins with one: a delimiter, then the nearest occurrence of the same
/// delimiter after it, with at least one character in between.
pub open spec fn bold_span(s: Seq<char>) -> Option<nat> {
    if s.len() >= 2 && is_bold_mark(s[0]) && s[1] == s[0] {
        match find_pair(s.skip(2), s[0]) {
            Some(inner) => if inner > 0 {
                Some(inner + 4)
            } else {
                None
            },
            None => None,
        }
    } else {
        None
    }
}

/// A plain run holding `s`, unless `s` is blank.
pub open spec fn plain_unless_blank(s: Seq<char>) -> Seq<TextRun> {
    if is_blank(s) {
        Seq::empty()
    } else {
        seq![TextRun::Plain { text: s }]
    }
}

/// The inline runs of a line that is not a heading, from left to right.
///
/// A bold run is followed by a plain run of the white space that comes
/// directly after it, if there is any. Text up to the next delimiter, or up
/// to the end of the line where no delimiter follows or the delimiter at hand
/// opens no bold run, is one plain run, dropped when it is blank.
pub open spec fn inline_runs(s: Seq<char>) -> Seq<TextRun>
    decreases s.len(),
    via inline_runs_decreases
{
    if s.len() == 0 {
        Seq::empty()
    } else {
        match bold_span(s) {
            Some(n) => {
                let gap = leading_whitespace(s.skip(n as int));
                let bold = seq![TextRun::Bold { text: s.take(n as int) }];
                let space = if gap > 0 {
                    seq![TextRun::Plain { text: s.subrange(n as int, (n + gap) as int) }]
                } else {
                    Seq::empty()
                };
                bold + space + inline_runs(s.skip((n + gap) as int))
            },
            None => match find_opener(s) {
                Some(i) => if i > 0 {
                    plain_unless_blank(s.take(i as int)) + inline_runs(s.skip(i as int))
                } else {
                    plain_unless_blank(s)
                },
                None => plain_unless_blank(s),
            },
        }
    }
}

/// Each step of [`inline_runs`] goes on with a shorter text.
#[via_fn]
proof fn inline_runs_decreases(s: Seq<char>) {
    if s.len() > 0 {
        match bold_span(s) {
            Some(n) => {
                lemma_bold_span_bound(s);
                lemma_leading_whitespace_bound(s.skip(n as int));
            },
            None => {
                lemma_find_opener_bound(s);
            },
        }
    }
}

/// The row that a line which is not blank gives.
pub open spec fn line_row(line: Seq<char>) -> Seq<TextRun> {
    match heading_level(line) {
        Some(level) => seq![TextRun::Heading { level, text: line }],
        None => inline_runs(line),
    }
}

/// `n` rows, each holding one blank run.
pub open spec fn blank_rows(n: nat) -> Seq<Seq<TextRun>> {
    Seq::new(n, |i: int| seq![TextRun::Blank])
}

/// The rows of a list of lines, `pending` blank lines having been read since
/// the last row.
///
/// Blank lines are held back until a line with text follows; then each gives
/// a blank row, ahead of that line's row. At the end the blank lines still
/// held back are given out, and one more blank row closes the document.
pub open spec fn rows_of_lines(ls: Seq<Seq<char>>, pending: nat) -> Seq<Seq<TextRun>>
    decreases ls.len(),
{
    if ls.len() == 0 {
        blank_rows(pending + 1)
    } else if is_blank(ls[0]) {
        rows_of_lines(ls.skip(1), pending + 1)
    } else {
        let row = line_row(ls[0]);
        let shown = if row.len() > 0 {
            seq![row]
        } else {
            Seq::empty()
        };
        blank_rows(pending) + shown + rows_of_lines(ls.skip(1), 0)
    }
}

/// The rows that a Markdown source denotes.
pub open spec fn tokenize(input: Seq<char>) -> Seq<Seq<TextRun>> {
    rows_of_lines(lines(normalize(input)), 0)
}

/// The tagged cell of the heading that `line` is, if it is one: any number
/// of `#`, then a space, then a title that is not blank. The cell holds the
/// word `header`, the number of `#`, a bar, and the trimmed title.
pub open spec fn tagged_heading(line: Seq<char>) -> Option<Seq<char>> {
    let n = leading_count(line, '#');
    if 1 <= n < line.len() && line[n as int] == ' ' {
        let title = trimmed(line.skip(n as int + 1));
        if title.len() > 0 {
            Some("header"@ + decimal(n) + "|"@ + title)
        } else {
            None
        }
    } else {
        None
    }
}

/// A tagged plain cell holding `s` trimmed, unless `s` is blank.
pub open spec fn tagged_plain(s: Seq<char>) -> Seq<Seq<char>> {
    let text = trimmed(s);
    if text.len() == 0 {
        Seq::empty()
    } else {
        seq!["plain|"@ + text]
    }
}

/// The tagged inline cells of a line that is not a heading, from left to
/// right: a bold run gives the word `bold`, a bar and the text between its
/// delimiters; the text between bold runs gives a tagged plain cell.
pub open spec fn tagged_runs(s: Seq<char>) -> Seq<Seq<char>>
    decreases s.len(),
    via tagged_runs_decreases
{
    if s.len() == 0 {
        Seq::empty()
    } else {
        match bold_span(s) {
            Some(n) => seq!["bold|"@ + s.subrange(2, n - 2)] + tagged_runs(s.skip(n as int)),
            None => match find_opener(s) {
                Some(i) => if i > 0 {
                    tagged_plain(s.take(i as int)) + tagged_runs(s.skip(i as int))
                } else {
                    tagged_plain(s)
                },
                None => tagged_plain(s),
            },
        }
    }
}

/// Each step of [`tagged_runs`] goes on with a shorter text.
#[via_fn]
proof fn tagged_runs_decreases(s: Seq<char>) {
    if s.len() > 0 {
        lemma_bold_span_bound(s);
        lemma_find_opener_bound(s);
    }
}

/// The tagged row of a line that is not blank.
pub open spec fn tagged_line_row(line: Seq<char>) -> Seq<Seq<char>> {
    match tagged_heading(line) {
        Some(cell) => seq![cell],
        None => tagged_runs(line),
    }
}

/// The tagged rows of a list of lines: one row for each line that is not
/// blank and has a cell to show.
pub open spec fn tagged_rows(ls: Seq<Seq<char>>) -> Seq<Seq<Seq<char>>>
    decreases ls.len(),
{
    if ls.len() == 0 {
        Seq::empty()
    } else {
        let row = tagged_line_row(ls.last());
        let shown = if !is_blank(ls.last()) && row.len() > 0 {
            seq![row]
        } else {
            Seq::empty()
        };
        tagged_rows(ls.drop_last()) + shown
    }
}

/// The grid of tagged cells that a Markdown source denotes.
pub open spec fn tagged_grid(input: Seq<char>) -> Seq<Seq<Seq<char>>> {
    tagged_rows(lines(normalize(input)))
}

/// The texts of the runs of one row.
pub open spec fn row_texts(row: Seq<TextRun>) -> Seq<Seq<char>> {
    row.map_values(|run: TextRun| run.text())
}

/// The grid of cell texts that rows of runs show.
pub open spec fn grid_texts(rows: Seq<Seq<TextRun>>) -> Seq<Seq<Seq<char>>> {
    rows.map_values(|row: Seq<TextRun>| row_texts(row))
}

/// The texts of `cells` one after the other, with nothing between them.
pub open spec fn concat(cells: Seq<Seq<char>>) -> Seq<char>
    decreases cells.len(),
{
    if cells.len() == 0 {
        Seq::empty()
    } else {
        concat(cells.drop_last()) + cells.last()
    }
}

/// The lines `ls` as one text, a line feed between each two.
pub open spec fn join_lines(ls: Seq<Seq<char>>) -> Seq<char>
    decreases ls.len(),
{
    if ls.len() == 0 {
        Seq::empty()
    } else if ls.len() == 1 {
        ls[0]
    } else {
        join_lines(ls.drop_last()) + seq!['\n'] + ls.last()
    }
}

/// The Markdown source that a grid of cell texts stands for: each row is the
/// concatenation of its cells, and the rows are joined by line feeds.
pub open spec fn grid_source(grid: Seq<Seq<Seq<char>>>) -> Seq<char> {
    join_lines(grid.map_values(|row: Seq<Seq<char>>| concat(row)))
}

/// Whether a row is one that the tokenizer gives: a single blank run, a
/// single heading of level 1 to 6, or one or more plain and bold runs.
pub open spec fn is_row(row: Seq<TextRun>) -> bool {
    ||| row == seq![TextRun::Blank]
    ||| row.len() == 1 && (row[0] matches TextRun::Heading { level, .. } && 1 <= level <= 6)
    ||| row.len() > 0 && forall|k: int| 0 <= k < row.len() ==> (#[trigger] row[k]) is Plain || row[k] is Bold
}

/// The inline runs of a line are plain and bold runs.
pub proof fn lemma_inline_runs_are_inline(s: Seq<char>)
    ensures
        forall|k: int|
            0 <= k < inline_runs(s).len() ==> (#[trigger] inline_runs(s)[k]) is Plain
                || inline_runs(s)[k] is Bold,
    decreases s.len(),
{
    if s.len() > 0 {
        match bold_span(s) {
            Some(n) => {
                lemma_bold_span_bound(s);
                let gap = leading_whitespace(s.skip(n as int));
                lemma_leading_whitespace_bound(s.skip(n as int));
                lemma_inline_runs_are_inline(s.skip((n + gap) as int));
            },
            None => {
                lemma_find_opener_bound(s);
                match find_opener(s) {
                    Some(i) => {
                        if i > 0 {
                            lemma_inline_runs_are_inline(s.skip(i as int));
                        }
                    },
                    None => {},
                }
            },
        }
    }
}

/// The rows of a list of lines are rows that the tokenizer gives, and the
/// last of them is the blank row that closes the document.
pub proof fn lemma_rows_of_lines_are_rows(ls: Seq<Seq<char>>, pending: nat)
    ensures
        forall|k: int|
            0 <= k < rows_of_lines(ls, pending).len() ==> is_row(
                #[trigger] rows_of_lines(ls, pending)[k],
            ),
        rows_of_lines(ls, pending).len() > 0,
        rows_of_lines(ls, pending).last() == seq![TextRun::Blank],
    decreases ls.len(),
{
    if ls.len() == 0 {
    } else if is_blank(ls[0]) {
        lemma_rows_of_lines_are_rows(ls.skip(1), pending + 1);
    } else {
        lemma_rows_of_lines_are_rows(ls.skip(1), 0);
        lemma_inline_runs_are_inline(ls[0]);
        lemma_leading_count_bound(ls[0], '#');
        let row = line_row(ls[0]);
        let rows = rows_of_lines(ls, pending);
        let tail = rows_of_lines(ls.skip(1), 0);
        assert forall|k: int| 0 <= k < rows.len() implies is_row(#[trigger] rows[k]) by {
            if k < pending {
                assert(rows[k] == seq![TextRun::Blank]);
            } else if row.len() > 0 && k == pending {
                assert(rows[k] == row);
            } else if row.len() > 0 {
                assert(rows[k] == tail[k - pending - 1]);
            } else {
                assert(rows[k] == tail[k - pending]);
            }
        }
        assert(rows.last() == tail.last());
    }
}

/// Every row of a tokenized source is a row that the tokenizer gives, and
/// the last row is the blank row that closes the document.
pub proof fn lemma_tokenize_gives_rows(input: Seq<char>)
    ensures
        forall|k: int| 0 <= k < tokenize(input).len() ==> is_row(#[trigger] tokenize(input)[k]),
        tokenize(input).len() > 0,
        tokenize(input).last() == seq![TextRun::Blank],
{
    lemma_rows_of_lines_are_rows(lines(normalize(input)), 0);
}

/// A pair that is found lies within the text, where it was looked for.
pub proof fn lemma_find_pair_bound(s: Seq<char>, c: char)
    ensures
        find_pair(s, c) matches Some(i) ==> i + 2 <= s.len() && s[i as int] == c && s[i as int + 1] == c,
    decreases s.len(),
{
    if s.len() >= 2 && !(s[0] == c && s[1] == c) {
        lemma_find_pair_bound(s.skip(1), c);
    }
}

/// A delimiter that is found lies within the text and is one.
pub proof fn lemma_find_opener_bound(s: Seq<char>)
    ensures
        find_opener(s) matches Some(i) ==> i + 2 <= s.len() && is_bold_mark(s[i as int])
            && s[i as int + 1] == s[i as int],
    decreases s.len(),
{
    if s.len() >= 2 && !(is_bold_mark(s[0]) && s[1] == s[0]) {
        lemma_find_opener_bound(s.skip(1));
    }
}

/// A bold run has at least five characters and lies within the text.
pub proof fn lemma_bold_span_bound(s: Seq<char>)
    ensures
        bold_span(s) matches Some(n) ==> 5 <= n <= s.len(),
{
    if s.len() >= 2 {
        lemma_find_pair_bound(s.skip(2), s[0]);
    }
}

} // verus!
