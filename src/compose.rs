//! Turning the drawn cell buffer into styled terminal output.
use vstd::prelude::*;

use crate::model::Color;

verus! {

/// A color of the terminal's own palette.
#[derive(Clone, Copy, Debug, PartialEq, Eq, Structural)]
pub enum TermColor {
    Reset,
    Black,
    White,
    Rgb { r: u8, g: u8, b: u8 },
    AnsiValue(u8),
}

/// The drawing colors that have a terminal equivalent of their own.
pub open spec fn is_enumerated(c: Color) -> bool {
    match c {
        Color::Rgb(_, _, _) | Color::White | Color::Black | Color::Reset | Color::Indexed(_) => true,
        _ => false,
    }
}

/// The terminal equivalent of a drawing color, where there is one.
pub open spec fn spec_mapped_color(c: Color) -> Option<TermColor> {
    match c {
        Color::Rgb(r, g, b) => Some(TermColor::Rgb { r, g, b }),
        Color::White => Some(TermColor::White),
        Color::Black => Some(TermColor::Black),
        Color::Reset => Some(TermColor::Reset),
        Color::Indexed(x) => Some(TermColor::AnsiValue(x)),
        _ => None,
    }
}

/// The terminal equivalent of a drawing color, where there is one.
pub fn mapped_color(c: Color) -> (r: Option<TermColor>)
    ensures
        r == spec_mapped_color(c),
{
    match c {
        Color::Rgb(r, g, b) => Some(TermColor::Rgb { r, g, b }),
        Color::White => Some(TermColor::White),
        Color::Black => Some(TermColor::Black),
        Color::Reset => Some(TermColor::Reset),
        Color::Indexed(x) => Some(TermColor::AnsiValue(x)),
        _ => None,
    }
}

/// The terminal color of a drawing color; black for those without an
/// equivalent.
pub open spec fn spec_conv_color(c: Color) -> TermColor {
    match spec_mapped_color(c) {
        Some(t) => t,
        None => TermColor::Black,
    }
}

pub fn conv_color(c: Color) -> (r: TermColor)
    ensures
        r == spec_conv_color(c),
{
    match mapped_color(c) {
        Some(t) => t,
        None => TermColor::Black,
    }
}

/// Every enumerated drawing color has a terminal equivalent, and only the
/// others fall back to the default.
pub proof fn lemma_color_totality(c: Color)
    ensures
        is_enumerated(c) <==> spec_mapped_color(c) is Some,
        is_enumerated(c) ==> spec_conv_color(c) == spec_mapped_color(c)->Some_0,
{
}

/// One cell of the drawn buffer.
#[derive(Debug)]
pub struct Cell {
    pub symbol: String,
    pub fg: Color,
    pub bg: Color,
}

/// One cell of terminal output: a symbol in terminal colors.
#[derive(Debug)]
pub struct StyledCell {
    pub symbol: String,
    pub fg: TermColor,
    pub bg: TermColor,
}

/// `out` is `cells`, cell for cell, in terminal colors.
pub open spec fn styled_from(out: Seq<StyledCell>, cells: Seq<Cell>) -> bool {
    &&& out.len() == cells.len()
    &&& forall|i: int|
        0 <= i < out.len() ==> {
            &&& (#[trigger] out[i]).symbol@ == cells[i].symbol@
            &&& out[i].fg == spec_conv_color(cells[i].fg)
            &&& out[i].bg == spec_conv_color(cells[i].bg)
        }
}

/// Converts the cells of a buffer, in order, into terminal output.
pub fn style_cells(cells: &Vec<Cell>) -> (r: Vec<StyledCell>)
    ensures
        styled_from(r@, cells@),
{
    let mut out: Vec<StyledCell> = Vec::new();
    let mut i: usize = 0;
    while i < cells.len()
        invariant
            i <= cells.len(),
            styled_from(out@, cells@.take(i as int)),
        decreases cells.len() - i,
    {
        let c = &cells[i];
        out.push(
            StyledCell { symbol: c.symbol.clone(), fg: conv_color(c.fg), bg: conv_color(c.bg) },
        );
        assert(forall|m: int| 0 <= m < i + 1 ==> cells@.take(i + 1)[m] == cells@[m]);
        assert(forall|m: int| 0 <= m < i ==> cells@.take(i as int)[m] == cells@[m]);
        i = i + 1;
    }
    assert(cells@.take(cells.len() as int) =~= cells@);
    out
}

} // verus!
