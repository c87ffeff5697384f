//! The layout of a cell that shows no syntax: how it shares the width of its
//! row, by its place in the grid alone.

use vstd::prelude::*;
use vstd::string::StringExecFns;
use crate::numbers::push_decimal;
use crate::syntax::markdown::width_value;

verus! {

/// A cell to be laid out: where it stands and how wide it was measured, in
/// whole pixels.
#[derive(Debug)]
pub struct CellInfo {
    pub row: usize,
    pub col: usize,
    pub num_cols: usize,
    pub width: Option<usize>,
}

/// The style declarations of a cell by its place: the last cell of a row
/// grows, the others do not; the cells of the first row have the normal
/// weight, which only a growing cell declares, and the cells of the other
/// rows are bold; each cell declares its width.
pub open spec fn place_style(info: CellInfo) -> Seq<char> {
    let head = if info.col + 1 == info.num_cols {
        if info.row == 0 {
            "flex-grow: 1; font-weight: normal; width: "@
        } else {
            "flex-grow: 1; font-weight: bold; width: "@
        }
    } else if info.row == 0 {
        "flex-grow: 0; width: "@
    } else {
        "flex-grow: 0; font-weight: bold; width: "@
    };
    head + width_value(info.width) + ";"@
}

/// The style declarations of a cell by its place.
pub fn compute_style(props: CellInfo) -> (css: String)
    ensures
        css@ == place_style(props),
{
    let mut css = String::new();
    if props.num_cols > 0 && props.col == props.num_cols - 1 {
        if props.row == 0 {
            css.append("flex-grow: 1; font-weight: normal; width: ");
        } else {
            css.append("flex-grow: 1; font-weight: bold; width: ");
        }
    } else if props.row == 0 {
        css.append("flex-grow: 0; width: ");
    } else {
        css.append("flex-grow: 0; font-weight: bold; width: ");
    }
    match props.width {
        Some(w) => {
            push_decimal(&mut css, w);
            css.append("px");
        },
        None => {
            css.append("auto");
        },
    }
    css.append(";");
    assert(css@ =~= place_style(props));
    css
}

} // verus!
