//! The part of a client's terminal that the lounge draws on.

use vstd::prelude::*;

verus! {

/// The rows of the input area.
pub const INPUT_ROWS: u16 = 4;

/// The rows of the status line.
pub const STATUS_ROWS: u16 = 1;

/// A rectangle of terminal cells.
#[derive(Clone, Copy, Debug, PartialEq, Eq, Structural)]
pub struct Viewport {
    pub x: u16,
    pub y: u16,
    pub width: u16,
    pub height: u16,
}

/// The viewport of a terminal that reports `col_width` columns and
/// `row_height` rows: it starts at the terminal's origin, and of each
/// number it keeps the low sixteen bits.
pub open spec fn viewport_of(col_width: u32, row_height: u32) -> Viewport {
    Viewport {
        x: 0,
        y: 0,
        width: (col_width % 0x1_0000) as u16,
        height: (row_height % 0x1_0000) as u16,
    }
}

/// The viewport of a terminal of the given size; see [`viewport_of`].
pub fn viewport(col_width: u32, row_height: u32) -> (area: Viewport)
    ensures
        area == viewport_of(col_width, row_height),
{
    Viewport {
        x: 0,
        y: 0,
        width: (col_width % 0x1_0000) as u16,
        height: (row_height % 0x1_0000) as u16,
    }
}

} // verus!
