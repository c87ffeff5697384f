//! The way back from the grid: a plain source, tokenized and joined again,
//! comes back line by line, and with all that it shows but for white space;
//! and whatever the source, tokenizing what comes back from its grid gives
//! the rows that the source gave.

use vstd::prelude::*;
use crate::strings::{
    has_pair, has_prefix, is_blank, is_whitespace, leading_count, leading_whitespace,
    lemma_leading_whitespace_bound, lemma_leading_whitespace_is, lemma_replace_absent_char,
    lemma_replace_absent_pair, lemma_replace_without_char, lemma_replace_without_pair,
    lemma_span_before_bound, lemma_span_before_concat, lines, replace_all, span_before,
};
use crate::syntax::model::{
    blank_rows, bold_span, concat, escaped_newline, find_opener, grid_source, grid_texts,
    heading_level, inline_runs, is_bold_mark, join_lines, lemma_bold_span_bound,
    lemma_find_opener_bound, lemma_tokenize_gives_rows, line_row, newline_placeholder,
    normalize, plain_unless_blank, row_texts, rows_of_lines, tokenize, TextRun,
};

verus! {

/// A line that is no heading and holds no bold delimiter.
pub open spec fn is_plain_line(line: Seq<char>) -> bool {
    heading_level(line) is None && find_opener(line) is None
}

/// A source whose lines, as the tokenizer reads them, are all plain.
pub open spec fn is_plain_source(input: Seq<char>) -> bool {
    forall|k: int|
        0 <= k < lines(normalize(input)).len() ==> is_plain_line(
            #[trigger] lines(normalize(input))[k],
        )
}

/// A line as a row of the grid gives it back: a blank line as the empty
/// text, any other line as it is.
pub open spec fn collapsed(line: Seq<char>) -> Seq<char> {
    if is_blank(line) {
        Seq::empty()
    } else {
        line
    }
}

/// The text of each row of a grid.
pub open spec fn row_sources(grid: Seq<Seq<Seq<char>>>) -> Seq<Seq<char>> {
    grid.map_values(|row: Seq<Seq<char>>| concat(row))
}

/// A plain source comes back from its grid line by line: tokenized, reduced
/// to strings and joined again, it is the lines of the normalized source,
/// each blank line collapsed to an empty one, joined by line feeds and closed
/// by one more line feed.
pub proof fn lemma_plain_source_round_trip(input: Seq<char>)
    requires
        is_plain_source(input),
    ensures
        grid_source(grid_texts(tokenize(input))) == join_lines(
            lines(normalize(input)).map_values(|line: Seq<char>| collapsed(line)).push(
                Seq::empty(),
            ),
        ),
{
    let ls = lines(normalize(input));
    lemma_plain_rows(ls, 0);
    assert(row_sources(grid_texts(tokenize(input))) =~= ls.map_values(
        |line: Seq<char>| collapsed(line),
    ).push(Seq::empty()));
}

/// A single cell joined with nothing is its own text.
pub proof fn lemma_concat_single(text: Seq<char>)
    ensures
        concat(seq![text]) == text,
{
    let cells = seq![text];
    assert(cells.drop_last() =~= Seq::<Seq<char>>::empty());
    assert(concat(cells.drop_last()) =~= Seq::<char>::empty());
    assert(concat(cells) =~= text);
}

/// The row texts of plain lines: an empty text for each blank line held
/// back, each line collapsed, and the empty text of the closing row.
proof fn lemma_plain_rows(ls: Seq<Seq<char>>, pending: nat)
    requires
        forall|k: int| 0 <= k < ls.len() ==> is_plain_line(#[trigger] ls[k]),
    ensures
        row_sources(grid_texts(rows_of_lines(ls, pending))) == Seq::new(
            pending,
            |k: int| Seq::<char>::empty(),
        ) + ls.map_values(|line: Seq<char>| collapsed(line)) + seq![Seq::<char>::empty()],
    decreases ls.len(),
{
    let held = Seq::new(pending, |k: int| Seq::<char>::empty());
    let kept = ls.map_values(|line: Seq<char>| collapsed(line));
    let goal = held + kept + seq![Seq::<char>::empty()];
    let got = row_sources(grid_texts(rows_of_lines(ls, pending)));
    lemma_concat_single(Seq::empty());
    assert(row_texts(seq![TextRun::Blank]) =~= seq![Seq::<char>::empty()]);
    if ls.len() == 0 {
        assert(got =~= goal);
    } else {
        let rest = ls.skip(1);
        assert forall|k: int| 0 <= k < rest.len() implies is_plain_line(#[trigger] rest[k]) by {
            assert(rest[k] == ls[k + 1]);
        }
        let kept_rest = rest.map_values(|line: Seq<char>| collapsed(line));
        if is_blank(ls[0]) {
            lemma_plain_rows(rest, pending + 1);
            assert(got =~= goal);
        } else {
            lemma_plain_rows(rest, 0);
            let line = ls[0];
            assert(is_plain_line(line));
            assert(line.len() > 0);
            assert(line_row(line) =~= seq![TextRun::Plain { text: line }]);
            assert(row_texts(line_row(line)) =~= seq![line]);
            lemma_concat_single(line);
            let tail = rows_of_lines(rest, 0);
            let rows = rows_of_lines(ls, pending);
            assert(rows =~= blank_rows(pending) + seq![line_row(line)] + tail);
            assert(row_sources(grid_texts(tail)) == Seq::new(0, |k: int| Seq::<char>::empty())
                + kept_rest + seq![Seq::<char>::empty()]);
            let tail_sources = row_sources(grid_texts(tail));
            assert(tail_sources.len() == rest.len() + 1);
            assert(got.len() == rows.len());
            assert(tail.len() == tail_sources.len());
            assert(goal.len() == pending + ls.len() + 1);
            assert forall|k: int| 0 <= k < got.len() implies got[k] == goal[k] by {
                assert(got[k] == concat(row_texts(rows[k])));
                if k < pending {
                    assert(rows[k] == seq![TextRun::Blank]);
                    assert(goal[k] == held[k]);
                } else if k == pending {
                    assert(rows[k] == line_row(line));
                    assert(goal[k] == kept[0]);
                } else {
                    let m = k - pending - 1;
                    assert(rows[k] == tail[m]);
                    assert(tail_sources[m] == concat(row_texts(tail[m])));
                    if m < rest.len() {
                        assert(tail_sources[m] == kept_rest[m]);
                        assert(kept_rest[m] == collapsed(rest[m]));
                        assert(rest[m] == ls[m + 1]);
                        assert(goal[k] == kept[m + 1]);
                    } else {
                        assert(tail_sources[m] == Seq::<char>::empty());
                        assert(goal[k] == Seq::<char>::empty());
                    }
                }
            }
            assert(got =~= goal);
        }
    }
}

/// A text that normalization leaves as it is: it holds no tab, no carriage
/// return and no escaped line feed.
pub open spec fn is_normal(s: Seq<char>) -> bool {
    !s.contains('\t') && !s.contains('\r') && !has_pair(s, '\\', 'n')
}

/// A normalized source is normal.
pub proof fn lemma_normalize_is_normal(input: Seq<char>)
    ensures
        is_normal(normalize(input)),
{
    let spaces = seq![' ', ' ', ' ', ' '];
    let hidden = replace_all(input, escaped_newline(), newline_placeholder());
    let widened = replace_all(hidden, seq!['\t'], spaces);
    let joined = replace_all(widened, seq!['\r', '\n'], seq!['\n']);
    let out = replace_all(joined, seq!['\r'], seq!['\n']);
    assert(!has_pair(newline_placeholder(), '\\', 'n'));
    assert(!has_pair(spaces, '\\', 'n'));
    assert(!has_pair(seq!['\n'], '\\', 'n'));
    assert(!spaces.contains('\t'));
    assert(!seq!['\n'].contains('\t'));
    assert(!seq!['\n'].contains('\r'));
    lemma_replace_without_pair(input, escaped_newline(), newline_placeholder(), '\\', 'n');
    lemma_replace_without_pair(hidden, seq!['\t'], spaces, '\\', 'n');
    lemma_replace_without_char(hidden, seq!['\t'], spaces, '\t');
    lemma_replace_without_pair(widened, seq!['\r', '\n'], seq!['\n'], '\\', 'n');
    lemma_replace_without_char(widened, seq!['\r', '\n'], seq!['\n'], '\t');
    lemma_replace_without_pair(joined, seq!['\r'], seq!['\n'], '\\', 'n');
    lemma_replace_without_char(joined, seq!['\r'], seq!['\n'], '\t');
    lemma_replace_without_char(joined, seq!['\r'], seq!['\n'], '\r');
}

/// Normalization leaves a normal text as it is.
pub proof fn lemma_normalize_keeps_normal(s: Seq<char>)
    requires
        is_normal(s),
    ensures
        normalize(s) == s,
{
    lemma_replace_absent_pair(s, '\\', 'n', newline_placeholder());
    assert(escaped_newline() =~= seq!['\\', 'n']);
    lemma_replace_absent_char(s, '\t', seq![' ', ' ', ' ', ' ']);
    lemma_replace_absent_pair(s, '\r', '\n', seq!['\n']);
    lemma_replace_absent_char(s, '\r', seq!['\n']);
}

/// Normalizing twice is normalizing once.
pub proof fn lemma_normalize_is_idempotent(input: Seq<char>)
    ensures
        normalize(normalize(input)) == normalize(input),
{
    lemma_normalize_is_normal(input);
    lemma_normalize_keeps_normal(normalize(input));
}

/// A piece of a normal text is normal.
proof fn lemma_piece_is_normal(s: Seq<char>, from: int, to: int)
    requires
        is_normal(s),
        0 <= from <= to <= s.len(),
    ensures
        is_normal(s.subrange(from, to)),
{
    let piece = s.subrange(from, to);
    assert forall|i: int| 0 <= i < piece.len() implies piece[i] != '\t' && piece[i] != '\r' by {
        assert(s.contains(s[from + i]));
    }
    assert forall|i: int| 0 <= i && i + 1 < piece.len() implies !(#[trigger] piece[i] == '\\'
        && piece[i + 1] == 'n') by {
        assert(piece[i] == s[from + i] && piece[i + 1] == s[from + i + 1]);
    }
}

/// The lines of a normal text are normal, and no line holds a line feed.
proof fn lemma_lines_are_normal(s: Seq<char>)
    requires
        is_normal(s),
    ensures
        forall|k: int|
            0 <= k < lines(s).len() ==> is_normal(#[trigger] lines(s)[k]) && !lines(s)[k].contains(
                '\n',
            ),
    decreases s.len(),
{
    let n = span_before(s, '\n');
    lemma_span_before_bound(s, '\n');
    if s.len() == 0 {
    } else if n >= s.len() {
        assert(s.subrange(0, s.len() as int) =~= s);
    } else {
        let first = s.take(n as int);
        let rest = s.skip(n as int + 1);
        lemma_piece_is_normal(s, 0, n as int);
        lemma_piece_is_normal(s, n as int + 1, s.len() as int);
        lemma_lines_are_normal(rest);
        assert forall|k: int| 0 <= k < lines(s).len() implies is_normal(#[trigger] lines(s)[k])
            && !lines(s)[k].contains('\n') by {
            if k == 0 {
                assert(lines(s)[0] == first);
            } else {
                assert(lines(s)[k] == lines(rest)[k - 1]);
            }
        }
    }
}

/// Two normal texts with a line feed between them are a normal text.
proof fn lemma_joined_pair_is_normal(a: Seq<char>, b: Seq<char>)
    requires
        is_normal(a),
        is_normal(b),
    ensures
        is_normal(a + seq!['\n'] + b),
{
    let s = a + seq!['\n'] + b;
    assert forall|i: int| 0 <= i < s.len() implies s[i] != '\t' && s[i] != '\r' by {
        if i < a.len() {
            assert(a.contains(a[i]));
        } else if i > a.len() {
            assert(b.contains(b[i - a.len() - 1]));
        }
    }
    assert forall|i: int| 0 <= i && i + 1 < s.len() implies !(#[trigger] s[i] == '\\' && s[i
        + 1] == 'n') by {
        if i + 1 < a.len() {
            assert(s[i] == a[i] && s[i + 1] == a[i + 1]);
        } else if i > a.len() {
            assert(s[i] == b[i - a.len() - 1] && s[i + 1] == b[i - a.len()]);
        }
    }
}

/// Normal lines joined are a normal text.
proof fn lemma_joined_is_normal(ls: Seq<Seq<char>>)
    requires
        forall|k: int| 0 <= k < ls.len() ==> is_normal(#[trigger] ls[k]),
    ensures
        is_normal(join_lines(ls)),
    decreases ls.len(),
{
    if ls.len() >= 2 {
        lemma_joined_is_normal(ls.drop_last());
        lemma_joined_pair_is_normal(join_lines(ls.drop_last()), ls.last());
    } else if ls.len() == 0 {
        assert(!has_pair(Seq::<char>::empty(), '\\', 'n'));
    }
}

/// Lines joined begin with the first line and a line feed, where more lines
/// follow.
proof fn lemma_join_lines_front(first: Seq<char>, rest: Seq<Seq<char>>)
    requires
        rest.len() > 0,
    ensures
        join_lines(seq![first] + rest) == first + seq!['\n'] + join_lines(rest),
    decreases rest.len(),
{
    let all = seq![first] + rest;
    assert(all.last() == rest.last());
    if rest.len() == 1 {
        assert(all.drop_last() =~= seq![first]);
        assert(join_lines(seq![first]) == first);
        assert(join_lines(rest) == rest[0]);
        assert(join_lines(all) =~= first + seq!['\n'] + join_lines(rest));
    } else {
        assert(all.drop_last() =~= seq![first] + rest.drop_last());
        lemma_join_lines_front(first, rest.drop_last());
        assert(join_lines(all) =~= first + seq!['\n'] + join_lines(rest));
    }
}

/// Lines without line feeds, joined and closed by a line feed, are the
/// lines of the joined text.
proof fn lemma_lines_of_joined(ls: Seq<Seq<char>>)
    requires
        forall|k: int| 0 <= k < ls.len() ==> !(#[trigger] ls[k]).contains('\n'),
    ensures
        lines(join_lines(ls.push(Seq::empty()))) == ls,
    decreases ls.len(),
{
    let closed = ls.push(Seq::empty());
    if ls.len() == 0 {
        assert(closed =~= seq![Seq::<char>::empty()]);
        assert(lines(join_lines(closed)) =~= ls);
    } else {
        let first = ls[0];
        let rest = ls.skip(1);
        let tail = rest.push(Seq::empty());
        assert(closed =~= seq![first] + tail);
        lemma_join_lines_front(first, tail);
        let after = join_lines(tail);
        let text = first + seq!['\n'] + after;
        assert forall|k: int| 0 <= k < rest.len() implies !(#[trigger] rest[k]).contains(
            '\n',
        ) by {
            assert(rest[k] == ls[k + 1]);
        }
        lemma_lines_of_joined(rest);
        assert forall|i: int| 0 <= i < first.len() implies first[i] != '\n' by {
            assert(first.contains(first[i]));
        }
        assert(text =~= first + (seq!['\n'] + after));
        lemma_span_before_concat(first, seq!['\n'] + after, '\n');
        assert(span_before(seq!['\n'] + after, '\n') == 0);
        assert(text.take(first.len() as int) =~= first);
        assert(text.skip(first.len() as int + 1) =~= after);
        assert(lines(text) =~= seq![first] + lines(after));
        assert(seq![first] + rest =~= ls);
    }
}

/// `s` without its white space.
pub open spec fn visible(s: Seq<char>) -> Seq<char>
    decreases s.len(),
{
    if s.len() == 0 {
        Seq::empty()
    } else if is_whitespace(s.last()) {
        visible(s.drop_last())
    } else {
        visible(s.drop_last()).push(s.last())
    }
}

/// Whether `line` begins with the character `c`.
pub open spec fn begins_with(line: Seq<char>, c: char) -> bool {
    line.len() > 0 && line[0] == c
}

/// A source without marks: it holds no bold delimiter and no escaped line
/// feed, and none of its lines, as the tokenizer reads them, begins with
/// `#`.
pub open spec fn is_unmarked(input: Seq<char>) -> bool {
    &&& !has_pair(input, '*', '*')
    &&& !has_pair(input, '_', '_')
    &&& !has_pair(input, '\\', 'n')
    &&& forall|k: int|
        0 <= k < lines(normalize(input)).len() ==> !begins_with(
            #[trigger] lines(normalize(input))[k],
            '#',
        )
}

/// What two texts show, one after the other, is what the joined text shows.
pub proof fn lemma_visible_append(a: Seq<char>, b: Seq<char>)
    ensures
        visible(a + b) == visible(a) + visible(b),
    decreases b.len(),
{
    if b.len() == 0 {
        assert(a + b =~= a);
        assert(visible(a) + visible(b) =~= visible(a));
    } else {
        assert((a + b).drop_last() =~= a + b.drop_last());
        lemma_visible_append(a, b.drop_last());
        assert(visible(a + b) =~= visible(a) + visible(b));
    }
}

/// A blank text shows nothing.
pub proof fn lemma_visible_of_blank(s: Seq<char>)
    requires
        is_blank(s),
    ensures
        visible(s) == Seq::<char>::empty(),
    decreases s.len(),
{
    if s.len() > 0 {
        assert forall|i: int| 0 <= i < s.drop_last().len() implies is_whitespace(
            #[trigger] s.drop_last()[i],
        ) by {
            assert(s.drop_last()[i] == s[i]);
        }
        lemma_visible_of_blank(s.drop_last());
    }
}

/// Replacing white space by white space changes nothing of what a text
/// shows.
pub proof fn lemma_replace_keeps_visible(s: Seq<char>, pat: Seq<char>, rep: Seq<char>)
    requires
        is_blank(pat),
        is_blank(rep),
    ensures
        visible(replace_all(s, pat, rep)) == visible(s),
    decreases s.len(),
{
    if s.len() > 0 && pat.len() > 0 {
        if has_prefix(s, pat) {
            let head = s.take(pat.len() as int);
            let rest = s.skip(pat.len() as int);
            lemma_replace_keeps_visible(rest, pat, rep);
            lemma_visible_append(rep, replace_all(rest, pat, rep));
            lemma_visible_of_blank(rep);
            assert(head =~= pat);
            lemma_visible_of_blank(head);
            assert(head + rest =~= s);
            lemma_visible_append(head, rest);
            assert(visible(replace_all(s, pat, rep)) =~= visible(s));
        } else {
            let rest = s.skip(1);
            lemma_replace_keeps_visible(rest, pat, rep);
            lemma_visible_append(seq![s[0]], replace_all(rest, pat, rep));
            lemma_visible_append(seq![s[0]], rest);
            assert(seq![s[0]] + rest =~= s);
        }
    }
}

/// Normalizing a source without escaped line feeds changes nothing of what
/// it shows.
pub proof fn lemma_normalize_keeps_visible(input: Seq<char>)
    requires
        !has_pair(input, '\\', 'n'),
    ensures
        visible(normalize(input)) == visible(input),
{
    let spaces = seq![' ', ' ', ' ', ' '];
    lemma_replace_absent_pair(input, '\\', 'n', newline_placeholder());
    assert(escaped_newline() =~= seq!['\\', 'n']);
    let widened = replace_all(input, seq!['\t'], spaces);
    let joined = replace_all(widened, seq!['\r', '\n'], seq!['\n']);
    assert(is_blank(seq!['\t']));
    assert(is_blank(spaces));
    assert(is_blank(seq!['\r', '\n']));
    assert(is_blank(seq!['\r']));
    assert(is_blank(seq!['\n']));
    lemma_replace_keeps_visible(input, seq!['\t'], spaces);
    lemma_replace_keeps_visible(widened, seq!['\r', '\n'], seq!['\n']);
    lemma_replace_keeps_visible(joined, seq!['\r'], seq!['\n']);
}

/// The lines of a text, each blank line collapsed, joined and closed by a
/// line feed, show what the text shows.
pub proof fn lemma_lines_keep_visible(s: Seq<char>)
    ensures
        visible(
            join_lines(lines(s).map_values(|line: Seq<char>| collapsed(line)).push(Seq::empty())),
        ) == visible(s),
    decreases s.len(),
{
    let kept = lines(s).map_values(|line: Seq<char>| collapsed(line));
    let closed = kept.push(Seq::empty());
    let n = span_before(s, '\n');
    lemma_span_before_bound(s, '\n');
    assert(is_blank(seq!['\n']));
    lemma_visible_of_blank(seq!['\n']);
    if s.len() == 0 {
        assert(closed =~= seq![Seq::<char>::empty()]);
        assert(join_lines(closed) == Seq::<char>::empty());
    } else if n >= s.len() {
        assert(closed =~= seq![collapsed(s)] + seq![Seq::<char>::empty()]);
        lemma_join_lines_front(collapsed(s), seq![Seq::<char>::empty()]);
        assert(join_lines(seq![Seq::<char>::empty()]) == Seq::<char>::empty());
        lemma_visible_append(collapsed(s) + seq!['\n'], Seq::empty());
        lemma_visible_append(collapsed(s), seq!['\n']);
        if is_blank(s) {
            lemma_visible_of_blank(s);
        }
        assert(visible(join_lines(closed)) =~= visible(s));
    } else {
        let first = s.take(n as int);
        let rest = s.skip(n as int + 1);
        let kept_rest = lines(rest).map_values(|line: Seq<char>| collapsed(line));
        let closed_rest = kept_rest.push(Seq::empty());
        lemma_lines_keep_visible(rest);
        assert(closed =~= seq![collapsed(first)] + closed_rest);
        lemma_join_lines_front(collapsed(first), closed_rest);
        lemma_visible_append(collapsed(first) + seq!['\n'], join_lines(closed_rest));
        lemma_visible_append(collapsed(first), seq!['\n']);
        if is_blank(first) {
            lemma_visible_of_blank(first);
        }
        assert(s =~= first + seq!['\n'] + rest);
        lemma_visible_append(first + seq!['\n'], rest);
        lemma_visible_append(first, seq!['\n']);
        assert(visible(join_lines(closed)) =~= visible(s));
    }
}

/// A plain source without escaped line feeds comes back from its grid with
/// all that it shows: but for white space, the text that comes back is the
/// source.
pub proof fn lemma_plain_source_keeps_its_text(input: Seq<char>)
    requires
        is_plain_source(input),
        !has_pair(input, '\\', 'n'),
    ensures
        visible(grid_source(grid_texts(tokenize(input)))) == visible(input),
{
    lemma_plain_source_round_trip(input);
    lemma_lines_keep_visible(normalize(input));
    lemma_normalize_keeps_visible(input);
}

/// A piece of a text holds no pair that the text does not hold.
proof fn lemma_piece_without_pair(s: Seq<char>, from: int, to: int, a: char, b: char)
    requires
        !has_pair(s, a, b),
        0 <= from <= to <= s.len(),
    ensures
        !has_pair(s.subrange(from, to), a, b),
{
    let piece = s.subrange(from, to);
    assert forall|i: int| 0 <= i && i + 1 < piece.len() implies !(#[trigger] piece[i] == a
        && piece[i + 1] == b) by {
        assert(piece[i] == s[from + i] && piece[i + 1] == s[from + i + 1]);
    }
}

/// The lines of a text hold no pair that the text does not hold.
proof fn lemma_lines_without_pair(s: Seq<char>, a: char, b: char)
    requires
        !has_pair(s, a, b),
    ensures
        forall|k: int| 0 <= k < lines(s).len() ==> !has_pair(#[trigger] lines(s)[k], a, b),
    decreases s.len(),
{
    let n = span_before(s, '\n');
    lemma_span_before_bound(s, '\n');
    if s.len() == 0 {
    } else if n >= s.len() {
    } else {
        let first = s.take(n as int);
        let rest = s.skip(n as int + 1);
        lemma_piece_without_pair(s, 0, n as int, a, b);
        lemma_piece_without_pair(s, n as int + 1, s.len() as int, a, b);
        lemma_lines_without_pair(rest, a, b);
        assert forall|k: int| 0 <= k < lines(s).len() implies !has_pair(
            #[trigger] lines(s)[k],
            a,
            b,
        ) by {
            if k == 0 {
                assert(lines(s)[0] == first);
            } else {
                assert(lines(s)[k] == lines(rest)[k - 1]);
            }
        }
    }
}

/// A normalized source holds a bold delimiter only where the source holds
/// one, if the source holds no escaped line feed.
proof fn lemma_normalize_without_mark(input: Seq<char>, mark: char)
    requires
        is_bold_mark(mark),
        !has_pair(input, mark, mark),
        !has_pair(input, '\\', 'n'),
    ensures
        !has_pair(normalize(input), mark, mark),
{
    let spaces = seq![' ', ' ', ' ', ' '];
    lemma_replace_absent_pair(input, '\\', 'n', newline_placeholder());
    assert(escaped_newline() =~= seq!['\\', 'n']);
    let widened = replace_all(input, seq!['\t'], spaces);
    let joined = replace_all(widened, seq!['\r', '\n'], seq!['\n']);
    assert(!has_pair(spaces, mark, mark));
    assert(!has_pair(seq!['\n'], mark, mark));
    lemma_replace_without_pair(input, seq!['\t'], spaces, mark, mark);
    lemma_replace_without_pair(widened, seq!['\r', '\n'], seq!['\n'], mark, mark);
    lemma_replace_without_pair(joined, seq!['\r'], seq!['\n'], mark, mark);
}

/// A source without marks is plain.
pub proof fn lemma_unmarked_source_is_plain(input: Seq<char>)
    requires
        is_unmarked(input),
    ensures
        is_plain_source(input),
{
    let ls = lines(normalize(input));
    lemma_normalize_without_mark(input, '*');
    lemma_normalize_without_mark(input, '_');
    lemma_lines_without_pair(normalize(input), '*', '*');
    lemma_lines_without_pair(normalize(input), '_', '_');
    assert forall|k: int| 0 <= k < ls.len() implies is_plain_line(#[trigger] ls[k]) by {
        let line = ls[k];
        assert(!begins_with(line, '#'));
        assert(leading_count(line, '#') == 0);
        lemma_find_opener_is_first(line);
        match find_opener(line) {
            Some(i) => {
                assert(has_opener_at(line, i as int));
                assert(line[i as int] == line[i as int + 1]);
                if line[i as int] == '*' {
                    assert(has_pair(line, '*', '*'));
                } else {
                    assert(has_pair(line, '_', '_'));
                }
            },
            None => {},
        }
    }
}

/// A source without marks comes back from its grid with all that it shows:
/// but for white space, the text that comes back is the source.
pub proof fn lemma_unmarked_source_keeps_its_text(input: Seq<char>)
    requires
        is_unmarked(input),
    ensures
        visible(grid_source(grid_texts(tokenize(input)))) == visible(input),
{
    lemma_unmarked_source_is_plain(input);
    lemma_plain_source_keeps_its_text(input);
}

/// The text that a row shows: the texts of its runs, one after the other.
pub open spec fn row_source(row: Seq<TextRun>) -> Seq<char> {
    concat(row_texts(row))
}

/// Whether a bold delimiter stands at index `i` of `s`.
pub open spec fn has_opener_at(s: Seq<char>, i: int) -> bool {
    0 <= i && i + 1 < s.len() && is_bold_mark(s[i]) && s[i + 1] == s[i]
}

/// The number of characters at the start of a line that none of its inline
/// runs shows: its leading white space, where a bold delimiter or nothing
/// at all follows it.
pub open spec fn dropped(s: Seq<char>) -> nat {
    let w = leading_whitespace(s);
    if w == s.len() || has_opener_at(s, w as int) {
        w
    } else {
        0
    }
}

/// A row that tokenizing its own text gives back: a blank row, or a row
/// with runs that is the row of the text it shows, which is not blank.
pub open spec fn is_settled(row: Seq<TextRun>) -> bool {
    ||| row == seq![TextRun::Blank]
    ||| row.len() > 0 && !is_blank(row_source(row)) && line_row(row_source(row)) == row
}

/// A settled row that shows a normal text without line feeds.
pub open spec fn is_sound(row: Seq<TextRun>) -> bool {
    is_settled(row) && is_normal(row_source(row)) && !row_source(row).contains('\n')
}

/// The first delimiter that is found is the first that stands in the text.
pub proof fn lemma_find_opener_is_first(s: Seq<char>)
    ensures
        match find_opener(s) {
            Some(i) => has_opener_at(s, i as int) && forall|j: int|
                0 <= j < i ==> !has_opener_at(s, j),
            None => forall|j: int| !has_opener_at(s, j),
        },
    decreases s.len(),
{
    if s.len() >= 2 && !(is_bold_mark(s[0]) && s[1] == s[0]) {
        let rest = s.skip(1);
        lemma_find_opener_is_first(rest);
        assert forall|j: int| has_opener_at(s, j) implies j >= 1 && has_opener_at(rest, j - 1) by {
            assert(rest[j - 1] == s[j] && rest[j] == s[j + 1]);
        }
        match find_opener(rest) {
            Some(i) => {
                assert(rest[i as int] == s[i as int + 1] && rest[i as int + 1] == s[i as int + 2]);
            },
            None => {},
        }
    }
}

/// The texts of two rows of cells joined are the texts of the one and the
/// texts of the other.
pub proof fn lemma_concat_append(a: Seq<Seq<char>>, b: Seq<Seq<char>>)
    ensures
        concat(a + b) == concat(a) + concat(b),
    decreases b.len(),
{
    if b.len() == 0 {
        assert(a + b =~= a);
        assert(concat(a) + concat(b) =~= concat(a));
    } else {
        assert((a + b).drop_last() =~= a + b.drop_last());
        lemma_concat_append(a, b.drop_last());
        assert(concat(a + b) =~= concat(a) + concat(b));
    }
}

/// The runs of two pieces of a row show the texts of the one and of the
/// other.
proof fn lemma_row_source_append(a: Seq<TextRun>, b: Seq<TextRun>)
    ensures
        row_source(a + b) == row_source(a) + row_source(b),
{
    assert(row_texts(a + b) =~= row_texts(a) + row_texts(b));
    lemma_concat_append(row_texts(a), row_texts(b));
}

/// A plain run that is kept shows its text, and one that is dropped shows
/// nothing.
proof fn lemma_plain_source(s: Seq<char>)
    ensures
        row_source(plain_unless_blank(s)) == if is_blank(s) {
            Seq::<char>::empty()
        } else {
            s
        },
{
    if is_blank(s) {
        assert(row_texts(plain_unless_blank(s)) =~= Seq::<Seq<char>>::empty());
    } else {
        assert(row_texts(plain_unless_blank(s)) =~= seq![s]);
        lemma_concat_single(s);
    }
}

/// A text that does not begin with white space drops nothing.
proof fn lemma_nothing_dropped(s: Seq<char>)
    requires
        s.len() == 0 || !is_whitespace(s[0]),
    ensures
        dropped(s) == 0,
        s.skip(dropped(s) as int) == s,
{
    assert(s.skip(0) =~= s);
}

/// A line that begins with a bold run shows all of itself, if what follows
/// the run and the white space after it does.
proof fn lemma_inline_source_of_bold(s: Seq<char>, n: nat)
    requires
        s.len() > 0,
        bold_span(s) == Some(n),
        ({
            let rest = s.skip((n + leading_whitespace(s.skip(n as int))) as int);
            row_source(inline_runs(rest)) == rest
        }),
    ensures
        row_source(inline_runs(s)) == s.skip(dropped(s) as int),
{
    lemma_bold_span_bound(s);
    let gap = leading_whitespace(s.skip(n as int));
    lemma_leading_whitespace_bound(s.skip(n as int));
    let rest = s.skip((n + gap) as int);
    let bold = seq![TextRun::Bold { text: s.take(n as int) }];
    let space = if gap > 0 {
        seq![TextRun::Plain { text: s.subrange(n as int, (n + gap) as int) }]
    } else {
        Seq::<TextRun>::empty()
    };
    assert(inline_runs(s) == bold + space + inline_runs(rest));
    lemma_row_source_append(bold + space, inline_runs(rest));
    lemma_row_source_append(bold, space);
    assert(row_texts(bold) =~= seq![s.take(n as int)]);
    lemma_concat_single(s.take(n as int));
    if gap > 0 {
        assert(row_texts(space) =~= seq![s.subrange(n as int, (n + gap) as int)]);
        lemma_concat_single(s.subrange(n as int, (n + gap) as int));
    } else {
        assert(row_texts(space) =~= Seq::<Seq<char>>::empty());
    }
    lemma_nothing_dropped(s);
    assert(row_source(inline_runs(s)) =~= s);
}

/// A line that holds its first delimiter after its start shows itself from
/// that delimiter on, and the text before the delimiter unless it is blank,
/// if what begins at the delimiter shows all of itself.
proof fn lemma_inline_source_of_plain(s: Seq<char>, i: nat)
    requires
        bold_span(s) is None,
        find_opener(s) == Some(i),
        i > 0,
        row_source(inline_runs(s.skip(i as int))) == s.skip(i as int),
    ensures
        row_source(inline_runs(s)) == s.skip(dropped(s) as int),
{
    let w = leading_whitespace(s);
    lemma_leading_whitespace_bound(s);
    lemma_find_opener_is_first(s);
    lemma_find_opener_bound(s);
    let piece = s.take(i as int);
    let rest = s.skip(i as int);
    assert(inline_runs(s) == plain_unless_blank(piece) + inline_runs(rest));
    lemma_row_source_append(plain_unless_blank(piece), inline_runs(rest));
    lemma_plain_source(piece);
    if is_blank(piece) {
        assert forall|j: int| 0 <= j < i implies is_whitespace(s[j]) by {
            assert(piece[j] == s[j]);
        }
        lemma_leading_whitespace_is(s, i);
        assert(row_source(inline_runs(s)) =~= s.skip(i as int));
    } else {
        if w >= i {
            assert forall|j: int| 0 <= j < piece.len() implies is_whitespace(
                #[trigger] piece[j],
            ) by {
                assert(piece[j] == s[j]);
            }
        }
        assert(!has_opener_at(s, w as int));
        assert(s.skip(0) =~= s);
        assert(row_source(inline_runs(s)) =~= s);
    }
}

/// A line without a bold run at its start and without a delimiter after
/// its start shows all of itself, or nothing if it is blank.
proof fn lemma_inline_source_of_rest(s: Seq<char>)
    requires
        s.len() > 0,
        bold_span(s) is None,
        find_opener(s) is None || find_opener(s) == Some(0nat),
    ensures
        row_source(inline_runs(s)) == s.skip(dropped(s) as int),
{
    let w = leading_whitespace(s);
    lemma_leading_whitespace_bound(s);
    lemma_find_opener_is_first(s);
    assert(inline_runs(s) == plain_unless_blank(s));
    lemma_plain_source(s);
    if is_blank(s) {
        if w < s.len() {
            assert(is_whitespace(s[w as int]));
        }
        assert(s.skip(s.len() as int) =~= Seq::<char>::empty());
    } else {
        if w == s.len() {
            assert forall|j: int| 0 <= j < s.len() implies is_whitespace(#[trigger] s[j]) by {}
        }
        if find_opener(s) is None {
            assert(!has_opener_at(s, w as int));
        } else {
            assert(w == 0);
        }
        assert(s.skip(0) =~= s);
    }
}

/// The inline runs of a line show the line without what it drops at its
/// start.
pub proof fn lemma_inline_source(s: Seq<char>)
    ensures
        row_source(inline_runs(s)) == s.skip(dropped(s) as int),
        dropped(s) <= s.len(),
    decreases s.len(),
{
    lemma_leading_whitespace_bound(s);
    if s.len() == 0 {
        assert(row_texts(inline_runs(s)) =~= Seq::<Seq<char>>::empty());
        assert(s.skip(0) =~= s);
    } else {
        match bold_span(s) {
            Some(n) => {
                lemma_bold_span_bound(s);
                let gap = leading_whitespace(s.skip(n as int));
                lemma_leading_whitespace_bound(s.skip(n as int));
                let rest = s.skip((n + gap) as int);
                lemma_inline_source(rest);
                if rest.len() > 0 {
                    assert(rest[0] == s.skip(n as int)[gap as int]);
                }
                lemma_nothing_dropped(rest);
                lemma_inline_source_of_bold(s, n);
            },
            None => {
                lemma_find_opener_bound(s);
                match find_opener(s) {
                    Some(i) => {
                        if i > 0 {
                            let rest = s.skip(i as int);
                            lemma_inline_source(rest);
                            assert(rest[0] == s[i as int]);
                            lemma_nothing_dropped(rest);
                            lemma_inline_source_of_plain(s, i);
                        } else {
                            lemma_inline_source_of_rest(s);
                        }
                    },
                    None => {
                        lemma_inline_source_of_rest(s);
                    },
                }
            },
        }
    }
}

/// The row of a line that is not blank is settled, and it shows a piece of
/// the line, so that it shows a normal text without line feeds where the
/// line is one.
pub proof fn lemma_line_row_is_settled(line: Seq<char>)
    requires
        !is_blank(line),
    ensures
        is_settled(line_row(line)),
        is_normal(line) ==> is_normal(row_source(line_row(line))),
        !line.contains('\n') ==> !row_source(line_row(line)).contains('\n'),
{
    let row = line_row(line);
    match heading_level(line) {
        Some(level) => {
            assert(row_texts(row) =~= seq![line]);
            lemma_concat_single(line);
        },
        None => {
            lemma_inline_source(line);
            lemma_leading_whitespace_bound(line);
            let w = leading_whitespace(line);
            let d = dropped(line) as int;
            let shown = line.skip(d);
            assert(row_source(row) == shown);
            if w == line.len() {
                assert forall|j: int| 0 <= j < line.len() implies is_whitespace(
                    #[trigger] line[j],
                ) by {}
            }
            assert(!is_blank(shown)) by {
                if is_blank(shown) {
                    assert forall|j: int| 0 <= j < line.len() implies is_whitespace(
                        #[trigger] line[j],
                    ) by {
                        if j >= d {
                            assert(shown[j - d] == line[j]);
                        }
                    }
                }
            }
            if row.len() == 0 {
                assert(row_texts(row) =~= Seq::<Seq<char>>::empty());
            }
            if d == 0 {
                assert(shown =~= line);
            } else {
                assert(has_opener_at(line, w as int));
                assert(shown[0] == line[w as int]);
                assert(leading_count(shown, '#') == 0);
                assert(bold_span(line) is None);
                lemma_find_opener_is_first(line);
                lemma_find_opener_bound(line);
                assert(find_opener(line) == Some(w)) by {
                    match find_opener(line) {
                        Some(i) => {
                            if i < w {
                                assert(is_whitespace(line[i as int]));
                            }
                        },
                        None => {},
                    }
                }
                assert(is_blank(line.take(w as int)));
                assert(inline_runs(line) =~= inline_runs(shown));
            }
            if is_normal(line) {
                lemma_piece_is_normal(line, d, line.len() as int);
            }
            if !line.contains('\n') {
                assert forall|j: int| 0 <= j < shown.len() implies shown[j] != '\n' by {
                    assert(line.contains(line[j + d]));
                }
            }
        },
    }
}

/// The rows of normal lines without line feeds are settled, and they show
/// normal texts without line feeds.
proof fn lemma_rows_are_settled(ls: Seq<Seq<char>>, pending: nat)
    requires
        forall|k: int|
            0 <= k < ls.len() ==> is_normal(#[trigger] ls[k]) && !ls[k].contains('\n'),
    ensures
        forall|k: int|
            0 <= k < rows_of_lines(ls, pending).len() ==> is_sound(
                #[trigger] rows_of_lines(ls, pending)[k],
            ),
    decreases ls.len(),
{
    let rows = rows_of_lines(ls, pending);
    assert(row_texts(seq![TextRun::Blank]) =~= seq![Seq::<char>::empty()]);
    lemma_concat_single(Seq::empty());
    assert(is_normal(Seq::<char>::empty())) by {
        assert(!has_pair(Seq::<char>::empty(), '\\', 'n'));
    }
    if ls.len() == 0 {
        assert forall|k: int| 0 <= k < rows.len() implies is_sound(#[trigger] rows[k]) by {
            assert(rows[k] == seq![TextRun::Blank]);
        }
    } else {
        let rest = ls.skip(1);
        assert forall|k: int| 0 <= k < rest.len() implies is_normal(#[trigger] rest[k])
            && !rest[k].contains('\n') by {
            assert(rest[k] == ls[k + 1]);
        }
        if is_blank(ls[0]) {
            lemma_rows_are_settled(rest, pending + 1);
            assert(rows == rows_of_lines(rest, pending + 1));
        } else {
            lemma_rows_are_settled(rest, 0);
            lemma_line_row_is_settled(ls[0]);
            let row = line_row(ls[0]);
            let tail = rows_of_lines(rest, 0);
            assert forall|k: int| 0 <= k < rows.len() implies is_sound(#[trigger] rows[k]) by {
                if k < pending {
                    assert(rows[k] == seq![TextRun::Blank]);
                } else if row.len() > 0 && k == pending {
                    assert(rows[k] == row);
                } else if row.len() > 0 {
                    assert(rows[k] == tail[k - pending - 1]);
                } else {
                    assert(rows[k] == tail[k - pending]);
                }
            }
        }
    }
}

/// Tokenizing the texts that settled rows show gives the rows back, after
/// the blank rows held back and before the row that closes the document.
proof fn lemma_rows_of_settled(rows: Seq<Seq<TextRun>>, pending: nat)
    requires
        forall|k: int| 0 <= k < rows.len() ==> is_settled(#[trigger] rows[k]),
    ensures
        rows_of_lines(rows.map_values(|row: Seq<TextRun>| row_source(row)), pending) == blank_rows(
            pending,
        ) + rows + seq![seq![TextRun::Blank]],
    decreases rows.len(),
{
    let ls = rows.map_values(|row: Seq<TextRun>| row_source(row));
    let goal = blank_rows(pending) + rows + seq![seq![TextRun::Blank]];
    assert(row_texts(seq![TextRun::Blank]) =~= seq![Seq::<char>::empty()]);
    lemma_concat_single(Seq::empty());
    if rows.len() == 0 {
        assert(rows_of_lines(ls, pending) =~= goal);
    } else {
        let rest = rows.skip(1);
        assert(ls.skip(1) =~= rest.map_values(|row: Seq<TextRun>| row_source(row)));
        assert forall|k: int| 0 <= k < rest.len() implies is_settled(#[trigger] rest[k]) by {
            assert(rest[k] == rows[k + 1]);
        }
        assert(ls[0] == row_source(rows[0]));
        if rows[0] == seq![TextRun::Blank] {
            lemma_rows_of_settled(rest, pending + 1);
            assert(blank_rows(pending + 1) + rest + seq![seq![TextRun::Blank]] =~= goal);
        } else {
            lemma_rows_of_settled(rest, 0);
            assert(blank_rows(pending) + seq![rows[0]] + (blank_rows(0) + rest + seq![
                seq![TextRun::Blank],
            ]) =~= goal);
        }
    }
}

/// A plain run that is kept holds text.
proof fn lemma_plain_holds_text(s: Seq<char>)
    ensures
        forall|k: int|
            0 <= k < plain_unless_blank(s).len() ==> (#[trigger] plain_unless_blank(s)[k]).text().len()
                > 0,
{
    if !is_blank(s) && s.len() == 0 {
        assert forall|i: int| 0 <= i < s.len() implies is_whitespace(#[trigger] s[i]) by {}
    }
}

/// Every inline run of a line holds text.
pub proof fn lemma_inline_runs_hold_text(s: Seq<char>)
    ensures
        forall|k: int|
            0 <= k < inline_runs(s).len() ==> (#[trigger] inline_runs(s)[k]).text().len() > 0,
    decreases s.len(),
{
    let runs = inline_runs(s);
    if s.len() > 0 {
        match bold_span(s) {
            Some(n) => {
                lemma_bold_span_bound(s);
                let gap = leading_whitespace(s.skip(n as int));
                lemma_leading_whitespace_bound(s.skip(n as int));
                let rest = inline_runs(s.skip((n + gap) as int));
                lemma_inline_runs_hold_text(s.skip((n + gap) as int));
                let head = if gap > 0 {
                    seq![
                        TextRun::Bold { text: s.take(n as int) },
                        TextRun::Plain { text: s.subrange(n as int, (n + gap) as int) },
                    ]
                } else {
                    seq![TextRun::Bold { text: s.take(n as int) }]
                };
                assert(runs =~= head + rest);
                assert forall|k: int| 0 <= k < runs.len() implies (#[trigger] runs[k]).text().len()
                    > 0 by {
                    if k >= head.len() {
                        assert(runs[k] == rest[k - head.len()]);
                    }
                }
            },
            None => {
                lemma_find_opener_bound(s);
                lemma_plain_holds_text(s);
                match find_opener(s) {
                    Some(i) => {
                        if i > 0 {
                            let head = plain_unless_blank(s.take(i as int));
                            let rest = inline_runs(s.skip(i as int));
                            lemma_plain_holds_text(s.take(i as int));
                            lemma_inline_runs_hold_text(s.skip(i as int));
                            assert forall|k: int| 0 <= k < runs.len() implies (
                            #[trigger] runs[k]).text().len() > 0 by {
                                if k < head.len() {
                                    assert(runs[k] == head[k]);
                                } else {
                                    assert(runs[k] == rest[k - head.len()]);
                                }
                            }
                        }
                    },
                    None => {},
                }
            },
        }
    }
}

/// In the rows of a list of lines, a row of more than one run holds text in
/// every run.
pub proof fn lemma_rows_hold_text(ls: Seq<Seq<char>>, pending: nat)
    ensures
        forall|k: int, j: int|
            0 <= k < rows_of_lines(ls, pending).len() && rows_of_lines(ls, pending)[k].len() > 1
                && 0 <= j < rows_of_lines(ls, pending)[k].len() ==> (#[trigger] rows_of_lines(
                ls,
                pending,
            )[k][j]).text().len() > 0,
    decreases ls.len(),
{
    let rows = rows_of_lines(ls, pending);
    if ls.len() == 0 {
    } else if is_blank(ls[0]) {
        lemma_rows_hold_text(ls.skip(1), pending + 1);
        assert(rows == rows_of_lines(ls.skip(1), pending + 1));
    } else {
        lemma_rows_hold_text(ls.skip(1), 0);
        lemma_inline_runs_hold_text(ls[0]);
        let row = line_row(ls[0]);
        let tail = rows_of_lines(ls.skip(1), 0);
        assert forall|k: int, j: int|
            0 <= k < rows.len() && rows[k].len() > 1 && 0 <= j < rows[k].len() implies (
        #[trigger] rows[k][j]).text().len() > 0 by {
            if k < pending {
                assert(rows[k] == seq![TextRun::Blank]);
            } else if row.len() > 0 && k == pending {
                assert(rows[k] == row);
            } else if row.len() > 0 {
                assert(rows[k] == tail[k - pending - 1]);
            } else {
                assert(rows[k] == tail[k - pending]);
            }
        }
    }
}

/// Sound rows that end with a blank row come back from the grid: the
/// source of their texts denotes the rows themselves.
pub proof fn lemma_sound_rows_come_back(rows: Seq<Seq<TextRun>>)
    requires
        rows.len() > 0,
        rows.last() == seq![TextRun::Blank],
        forall|k: int| 0 <= k < rows.len() ==> is_sound(#[trigger] rows[k]),
    ensures
        tokenize(grid_source(grid_texts(rows))) == rows,
{
    let once = grid_source(grid_texts(rows));
    let body = rows.drop_last();
    let texts = body.map_values(|row: Seq<TextRun>| row_source(row));
    let closed = texts.push(Seq::empty());
    assert(row_texts(seq![TextRun::Blank]) =~= seq![Seq::<char>::empty()]);
    lemma_concat_single(Seq::empty());
    assert(row_sources(grid_texts(rows)) =~= closed) by {
        assert forall|k: int| 0 <= k < rows.len() implies row_sources(grid_texts(rows))[k]
            == closed[k] by {
            if k < body.len() {
                assert(body[k] == rows[k]);
            } else {
                assert(rows[k] == rows.last());
            }
        }
    }
    assert(once == join_lines(closed));
    assert forall|k: int| 0 <= k < closed.len() implies is_normal(#[trigger] closed[k]) by {
        if k < texts.len() {
            assert(texts[k] == row_source(rows[k]));
        } else {
            assert(closed[k] == row_source(rows.last()));
        }
    }
    lemma_joined_is_normal(closed);
    lemma_normalize_keeps_normal(once);
    assert forall|k: int| 0 <= k < texts.len() implies !(#[trigger] texts[k]).contains('\n') by {
        assert(texts[k] == row_source(rows[k]));
    }
    lemma_lines_of_joined(texts);
    assert forall|k: int| 0 <= k < body.len() implies is_settled(#[trigger] body[k]) by {
        assert(body[k] == rows[k]);
    }
    lemma_rows_of_settled(body, 0);
    assert(blank_rows(0) + body + seq![seq![TextRun::Blank]] =~= rows);
}

/// The rows of a tokenized source are sound.
pub proof fn lemma_tokenize_gives_sound_rows(input: Seq<char>)
    ensures
        forall|k: int| 0 <= k < tokenize(input).len() ==> is_sound(#[trigger] tokenize(input)[k]),
{
    lemma_normalize_is_normal(input);
    lemma_lines_are_normal(normalize(input));
    lemma_rows_are_settled(lines(normalize(input)), 0);
}

/// The round trip settles at once, whatever the source: the source that
/// comes back from the grid denotes the rows that the source denoted, so
/// that it comes back from its own round trip as it is.
pub proof fn lemma_round_trip_settles(input: Seq<char>)
    ensures
        tokenize(grid_source(grid_texts(tokenize(input)))) == tokenize(input),
        grid_source(grid_texts(tokenize(grid_source(grid_texts(tokenize(input))))))
            == grid_source(grid_texts(tokenize(input))),
{
    lemma_tokenize_gives_sound_rows(input);
    lemma_tokenize_gives_rows(input);
    lemma_sound_rows_come_back(tokenize(input));
}

} // verus!
