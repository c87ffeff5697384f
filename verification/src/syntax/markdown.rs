//! The style of a rendered cell: what a cell's run, its place in the row and
//! its measured width say about how it is drawn.

use vstd::prelude::*;
use vstd::string::StringExecFns;
use crate::numbers::{decimal, push_decimal, push_signed_decimal, signed_decimal};
use crate::syntax::model::TextRun;
use crate::syntax::text::{HeadingLevel, MarkDownElements};

verus! {

/// A cell to be styled: where it stands, how wide it was measured, in whole
/// pixels, and what it holds.
#[derive(Debug)]
pub struct CellInfo {
    pub row: usize,
    pub col: usize,
    pub num_cols: usize,
    pub width: Option<usize>,
    pub syntax: MarkDownElements,
}

/// How a cell is drawn.
#[derive(Debug)]
pub struct MarkDownStyle {
    pub text: String,
    pub font_size: usize,
    pub bold: bool,
    pub color: String,
    pub width: String,
    pub flex_grow: i32,
}

/// The font size of a run, in pixels: 32 for a heading of level 1, then 28,
/// 24, 20, 18 and 16 for the levels down to 6, and 16 for every other run.
pub open spec fn font_size(run: TextRun) -> nat {
    match run {
        TextRun::Heading { level, .. } => if level == 1 {
            32
        } else if level == 2 {
            28
        } else if level == 3 {
            24
        } else if level == 4 {
            20
        } else if level == 5 {
            18
        } else {
            16
        },
        _ => 16,
    }
}

/// Headings and bold runs are drawn bold.
pub open spec fn is_bold(run: TextRun) -> bool {
    run is Heading || run is Bold
}

/// The width of a cell as a style value: the measured width in pixels, or
/// `auto` where none was measured.
pub open spec fn width_value(width: Option<usize>) -> Seq<char> {
    match width {
        Some(w) => decimal(w as nat) + "px"@,
        None => "auto"@,
    }
}

/// The last cell of a row grows to fill the row; the others do not grow.
pub open spec fn flex_grow(col: usize, num_cols: usize) -> int {
    if col + 1 == num_cols {
        1
    } else {
        0
    }
}

/// The style declarations of a cell, as one line of text.
pub open spec fn style_text(style: MarkDownStyle) -> Seq<char> {
    "font-size: "@ + decimal(style.font_size as nat) + "px; color: "@ + style.color@
        + "; font-weight: "@ + (if style.bold {
        "bold"@
    } else {
        "normal"@
    }) + "; width: "@ + style.width@ + "px; flex-grow: "@ + signed_decimal(style.flex_grow as int)
}

/// The style of a cell.
pub fn compute_markdown_style_props(props: CellInfo) -> (style: MarkDownStyle)
    ensures
        style.text@ == props.syntax@.text(),
        style.font_size == font_size(props.syntax@),
        style.bold == is_bold(props.syntax@),
        style.color@ == "black"@,
        style.width@ == width_value(props.width),
        style.flex_grow == flex_grow(props.col, props.num_cols),
{
    let width = match props.width {
        Some(w) => {
            let mut text = String::new();
            push_decimal(&mut text, w);
            text.append("px");
            assert(text@ =~= decimal(w as nat) + "px"@);
            text
        },
        None => "auto".to_string(),
    };
    let font_size: usize = match &props.syntax {
        MarkDownElements::Heading(heading) => match heading {
            HeadingLevel::H1(_) => 32,
            HeadingLevel::H2(_) => 28,
            HeadingLevel::H3(_) => 24,
            HeadingLevel::H4(_) => 20,
            HeadingLevel::H5(_) => 18,
            HeadingLevel::H6(_) => 16,
        },
        MarkDownElements::PlainText(_) => 16,
        MarkDownElements::BoldText(_) => 16,
        MarkDownElements::EmptySpace => 16,
    };
    let bold = match &props.syntax {
        MarkDownElements::Heading(_) => true,
        MarkDownElements::BoldText(_) => true,
        _ => false,
    };
    let flex_grow: i32 = if props.num_cols > 0 && props.col == props.num_cols - 1 {
        1
    } else {
        0
    };
    let text = match props.syntax {
        MarkDownElements::Heading(heading) => match heading {
            HeadingLevel::H1(text) => text,
            HeadingLevel::H2(text) => text,
            HeadingLevel::H3(text) => text,
            HeadingLevel::H4(text) => text,
            HeadingLevel::H5(text) => text,
            HeadingLevel::H6(text) => text,
        },
        MarkDownElements::PlainText(text) => text,
        MarkDownElements::BoldText(text) => text,
        MarkDownElements::EmptySpace => String::new(),
    };
    MarkDownStyle { text, font_size, bold, color: "black".to_string(), width, flex_grow }
}

/// The style declarations of a cell, as one line of text.
pub fn compute_markdown_style_string(props: MarkDownStyle) -> (css: String)
    ensures
        css@ == style_text(props),
{
    let mut css = String::new();
    css.append("font-size: ");
    push_decimal(&mut css, props.font_size);
    css.append("px; color: ");
    css.append(props.color.as_str());
    css.append("; font-weight: ");
    if props.bold {
        css.append("bold");
    } else {
        css.append("normal");
    }
    css.append("; width: ");
    css.append(props.width.as_str());
    css.append("px; flex-grow: ");
    push_signed_decimal(&mut css, props.flex_grow);
    assert(css@ =~= style_text(props));
    css
}

} // verus!
