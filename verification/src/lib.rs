//! A verified text console over a raw linear pixel framebuffer.
//!
//! The console keeps a shadow grid of the characters on screen, renders
//! glyphs into owned pixel memory, and maintains a movable, blinkable caret
//! that supports in-place insertion and deletion.

use vstd::prelude::*;

pub mod glyph;
pub mod grid;
pub mod laws;
pub mod pixel;
pub mod writer;

verus! {

/// Pixel margin kept free on every side of the framebuffer before the
/// text grid begins.
pub const BORDER_PADDING: usize = 5;

/// Extra vertical space between consecutive text rows, in pixels.
pub const LINE_SPACING: usize = 2;

/// Extra horizontal space between consecutive characters, in pixels.
pub const LETTER_SPACING: usize = 0;

/// Horizontal caret advance performed by a tab character, in pixels.
pub const TAB_SPACING: usize = 30;

/// Width of one glyph cell, in pixels.
pub const CHAR_WIDTH: usize = 8;

/// Height of one glyph cell, in pixels.
pub const CHAR_HEIGHT: usize = 16;

/// Intensity used to fill the caret cell when the cursor is drawn.
pub const CURSOR_INTENSITY: u8 = 200;

/// Horizontal pitch of the text grid: one glyph plus letter spacing.
pub open spec fn cell_w() -> int {
    CHAR_WIDTH + LETTER_SPACING
}

/// Vertical pitch of the text grid: one glyph plus line spacing.
pub open spec fn cell_h() -> int {
    CHAR_HEIGHT + LINE_SPACING
}

/// Number of whole glyph cells that fit across a framebuffer of the
/// given width, before the at-least-one-cell clamp.
pub open spec fn spec_cols(width: int) -> int {
    if width < 2 * BORDER_PADDING {
        0
    } else {
        (width - 2 * BORDER_PADDING) / cell_w()
    }
}

/// Number of whole text rows that fit down a framebuffer of the given
/// height, before the at-least-one-row clamp.
pub open spec fn spec_rows(height: int) -> int {
    if height < 2 * BORDER_PADDING {
        0
    } else {
        (height - 2 * BORDER_PADDING) / cell_h()
    }
}

/// Grid column count actually used: clamped to at least one column.
pub open spec fn grid_cols(width: int, height: int) -> int {
    if spec_cols(width) == 0 || spec_rows(height) == 0 {
        1
    } else {
        spec_cols(width)
    }
}

/// Grid row count actually used: clamped to at least one row.
pub open spec fn grid_rows(width: int, height: int) -> int {
    if spec_cols(width) == 0 || spec_rows(height) == 0 {
        1
    } else {
        spec_rows(height)
    }
}

/// Pixel x coordinate of the left edge of a grid column.
pub open spec fn cell_x(col: int) -> int {
    BORDER_PADDING + col * cell_w()
}

/// Pixel y coordinate of the top edge of a grid row.
pub open spec fn cell_y(row: int) -> int {
    BORDER_PADDING + row * cell_h()
}

/// Grid column under a caret pixel x coordinate.
pub open spec fn col_at(x: int) -> int {
    if x <= BORDER_PADDING {
        0
    } else {
        (x - BORDER_PADDING) / cell_w()
    }
}

/// Grid row under a caret pixel y coordinate.
pub open spec fn row_at(y: int) -> int {
    if y <= BORDER_PADDING {
        0
    } else {
        (y - BORDER_PADDING) / cell_h()
    }
}

} // verus!
