//! The console writer: orchestrates the shadow grid, the pixel surface and
//! the caret. Every public operation is specified as a pure transition on
//! an abstract console view.

use vstd::prelude::*;
use vstd::arithmetic::div_mod::{lemma_div_by_multiple, lemma_div_is_ordered, lemma_div_by_self,
    lemma_div_pos_is_pos, lemma_fundamental_div_mod, lemma_fundamental_div_mod_converse,
    lemma_mod_bound, lemma_multiply_divide_lt};
use vstd::arithmetic::mul::lemma_mul_inequality;
use crate::glyph::bitmap_rows;
use crate::{cell_h, cell_w, cell_x, cell_y, col_at, grid_cols, grid_rows, row_at, spec_cols,
    spec_rows, BORDER_PADDING, CHAR_HEIGHT, CHAR_WIDTH, CURSOR_INTENSITY, LETTER_SPACING,
    LINE_SPACING, TAB_SPACING};
use crate::glyph::{get_char_raster, glyph_of};
use crate::grid::TextGrid;
use crate::pixel::{bitmap_pixel, encoded, in_rect, info_wf, FrameBufferInfo, PixelSurface};

verus! {

/// Abstract state of the console: framebuffer extent, grid size and
/// contents, caret pixel position, and caret visibility.
#[verifier::ext_equal]
pub ghost struct ConsoleView {
    pub width: int,
    pub height: int,
    pub cols: int,
    pub rows: int,
    pub cells: Seq<Seq<Option<char>>>,
    pub x: int,
    pub y: int,
    pub visible: bool,
}

/// A framebuffer large enough for at least one full glyph cell inside the
/// border padding on every side. Smaller framebuffers would force the
/// clamped one-by-one grid into the border margin, where a drawn caret or
/// glyph could leave the screen; the console therefore demands this much
/// of its geometry up front instead of clamping further, and the boundary
/// code treats anything smaller as a fatal setup error.
pub open spec fn min_dims(info: FrameBufferInfo) -> bool {
    &&& info.width >= 2 * BORDER_PADDING + cell_w()
    &&& info.height >= 2 * BORDER_PADDING + cell_h()
}

/// Invariant of the abstract console state.
pub open spec fn inv(v: ConsoleView) -> bool {
    &&& v.width >= 2 * BORDER_PADDING + cell_w()
    &&& v.height >= 2 * BORDER_PADDING + cell_h()
    &&& v.cols == grid_cols(v.width, v.height)
    &&& v.rows == grid_rows(v.width, v.height)
    &&& v.cells.len() == v.rows
    &&& forall|r: int| 0 <= r < v.rows ==> (#[trigger] v.cells[r]).len() == v.cols
    &&& 0 <= v.x && v.x + CHAR_WIDTH <= v.width
    &&& 0 <= v.y && v.y + CHAR_HEIGHT <= v.height
}

/// A grid of empty cells.
pub open spec fn blank_grid(cols: int, rows: int) -> Seq<Seq<Option<char>>> {
    Seq::new(rows as nat, |r: int| Seq::new(cols as nat, |c: int| None::<char>))
}

/// A row after inserting `ch` at `col`: cells at and after `col` move one
/// place right, the last cell is dropped.
pub open spec fn row_insert(rowseq: Seq<Option<char>>, col: int, ch: char) -> Seq<Option<char>> {
    Seq::new(rowseq.len(), |c: int|
        if c < col {
            rowseq[c]
        } else if c == col {
            Some(ch)
        } else {
            rowseq[c - 1]
        })
}

/// A row after deleting the cell at `col`: cells after `col` move one
/// place left, the last cell becomes empty.
pub open spec fn row_remove(rowseq: Seq<Option<char>>, col: int) -> Seq<Option<char>> {
    Seq::new(rowseq.len(), |c: int|
        if c < col {
            rowseq[c]
        } else if c < rowseq.len() - 1 {
            rowseq[c + 1]
        } else {
            None
        })
}

/// State after a full clear: recomputed empty grid, caret at the drawable
/// origin, caret visible.
pub open spec fn step_clear(v: ConsoleView) -> ConsoleView {
    let cols = grid_cols(v.width, v.height);
    let rows = grid_rows(v.width, v.height);
    ConsoleView {
        cols,
        rows,
        cells: blank_grid(cols, rows),
        x: BORDER_PADDING as int,
        y: BORDER_PADDING as int,
        visible: true,
        ..v
    }
}

/// State after a newline: caret to the left margin of the next row; a row
/// past the grid triggers a full clear instead (the console never scrolls).
pub open spec fn step_newline(v: ConsoleView) -> ConsoleView {
    let row = row_at(v.y) + 1;
    if row >= v.rows {
        step_clear(v)
    } else {
        ConsoleView { x: BORDER_PADDING as int, y: cell_y(row), visible: true, ..v }
    }
}

/// State after a carriage return: caret to the left margin, row unchanged.
pub open spec fn step_carriage_return(v: ConsoleView) -> ConsoleView {
    ConsoleView { x: BORDER_PADDING as int, visible: true, ..v }
}

/// State after a tab: the caret advances by a fixed offset, clamped so its
/// cell stays on screen; the grid is not touched.
pub open spec fn step_tab(v: ConsoleView) -> ConsoleView {
    let nx = if v.x + TAB_SPACING + CHAR_WIDTH <= v.width {
        v.x + TAB_SPACING
    } else {
        v.width - CHAR_WIDTH
    };
    ConsoleView { x: nx, ..v }
}

/// State after inserting a printable character at the caret cell: the rest
/// of the row shifts right, the caret advances one cell, and an insert in
/// the last column is followed by a newline.
pub open spec fn step_insert_at(v: ConsoleView, ch: char) -> ConsoleView {
    let row = row_at(v.y);
    let col = col_at(v.x);
    if row >= v.rows || col >= v.cols {
        v
    } else {
        let cells = v.cells.update(row, row_insert(v.cells[row], col, ch));
        let ncol = if col + 1 < v.cols { col + 1 } else { v.cols - 1 };
        let v1 = ConsoleView { cells, x: cell_x(ncol), ..v };
        if col + 1 >= v.cols {
            step_newline(v1)
        } else {
            v1
        }
    }
}

/// State after writing a printable character: a caret past the line wraps
/// first, a caret past the grid clears first, then the character is
/// inserted.
pub open spec fn step_printable(v: ConsoleView, ch: char) -> ConsoleView {
    let v1 = if col_at(v.x) >= v.cols { step_newline(v) } else { v };
    let v2 = if row_at(v1.y) >= v1.rows { step_clear(v1) } else { v1 };
    step_insert_at(v2, ch)
}

/// State after writing one character; the caret is visible afterwards.
pub open spec fn step_char(v: ConsoleView, ch: char) -> ConsoleView {
    let v1 = if ch == '\t' {
        step_tab(v)
    } else if ch == '\n' {
        step_newline(v)
    } else if ch == '\r' {
        step_carriage_return(v)
    } else {
        step_printable(v, ch)
    };
    ConsoleView { visible: true, ..v1 }
}

/// State after writing a character sequence, one character at a time.
pub open spec fn step_str(v: ConsoleView, cs: Seq<char>) -> ConsoleView
    decreases cs.len(),
{
    if cs.len() == 0 {
        v
    } else {
        step_char(step_str(v, cs.drop_last()), cs.last())
    }
}

/// State after deleting the character under the caret: the rest of the
/// caret's row shifts left. A caret outside the grid deletes nothing.
pub open spec fn step_delete(v: ConsoleView) -> ConsoleView {
    let row = row_at(v.y);
    let col = col_at(v.x);
    if row < v.rows && col < v.cols {
        ConsoleView { cells: v.cells.update(row, row_remove(v.cells[row], col)), visible: true, ..v }
    } else {
        ConsoleView { visible: true, ..v }
    }
}

/// State after a backspace: at the grid origin nothing happens; otherwise
/// the caret moves one cell left (wrapping to the end of the previous row
/// at the left margin) and the character now under it is deleted.
pub open spec fn step_backspace(v: ConsoleView) -> ConsoleView {
    let col = col_at(v.x);
    let row = row_at(v.y);
    if col == 0 && row == 0 {
        v
    } else if v.x >= BORDER_PADDING + CHAR_WIDTH {
        step_delete(ConsoleView { x: v.x - CHAR_WIDTH, ..v })
    } else if v.y >= cell_h() + BORDER_PADDING {
        step_delete(ConsoleView { x: v.width - cell_w(), y: v.y - cell_h(), ..v })
    } else {
        ConsoleView { visible: true, ..v }
    }
}

/// State after moving the caret one cell left, wrapping to the end of the
/// previous row at the left margin; at the top-left nothing moves and the
/// caret is simply redrawn in place.
pub open spec fn step_cursor_left(v: ConsoleView) -> ConsoleView {
    if v.x >= BORDER_PADDING + CHAR_WIDTH {
        ConsoleView { x: v.x - CHAR_WIDTH, visible: true, ..v }
    } else if v.y >= cell_h() + BORDER_PADDING {
        ConsoleView { x: v.width - cell_w(), y: v.y - cell_h(), visible: true, ..v }
    } else {
        ConsoleView { visible: true, ..v }
    }
}

/// State after moving the caret one cell right; off the right edge it
/// behaves as a newline.
pub open spec fn step_cursor_right(v: ConsoleView) -> ConsoleView {
    if v.x + cell_w() + CHAR_WIDTH <= v.width {
        ConsoleView { x: v.x + cell_w(), visible: true, ..v }
    } else {
        step_newline(v)
    }
}

/// State after moving the caret one row up; at the top row nothing moves
/// and the caret is simply redrawn in place.
pub open spec fn step_cursor_up(v: ConsoleView) -> ConsoleView {
    if v.y >= cell_h() + BORDER_PADDING {
        ConsoleView { y: v.y - cell_h(), visible: true, ..v }
    } else {
        ConsoleView { visible: true, ..v }
    }
}

/// State after moving the caret one row down; at the bottom nothing moves
/// and the caret is simply redrawn in place.
pub open spec fn step_cursor_down(v: ConsoleView) -> ConsoleView {
    if v.y + cell_h() + CHAR_HEIGHT <= v.height {
        ConsoleView { y: v.y + cell_h(), visible: true, ..v }
    } else {
        ConsoleView { visible: true, ..v }
    }
}

pub proof fn lemma_geometry(width: int, height: int)
    requires
        width >= 2 * BORDER_PADDING + cell_w(),
        height >= 2 * BORDER_PADDING + cell_h(),
    ensures
        1 <= spec_cols(width),
        1 <= spec_rows(height),
        grid_cols(width, height) == spec_cols(width),
        grid_rows(width, height) == spec_rows(height),
        spec_cols(width) * cell_w() <= width - 2 * BORDER_PADDING,
        spec_rows(height) * cell_h() <= height - 2 * BORDER_PADDING,
{
    let aw = width - 2 * BORDER_PADDING;
    let ah = height - 2 * BORDER_PADDING;
    lemma_div_is_ordered(cell_w(), aw, cell_w());
    lemma_div_by_self(cell_w());
    lemma_div_is_ordered(cell_h(), ah, cell_h());
    lemma_div_by_self(cell_h());
    lemma_fundamental_div_mod(aw, cell_w());
    lemma_mod_bound(aw, cell_w());
    lemma_fundamental_div_mod(ah, cell_h());
    lemma_mod_bound(ah, cell_h());
    let qw = aw / cell_w();
    let qh = ah / cell_h();
    assert(cell_w() * qw <= aw);
    assert(cell_h() * qh <= ah);
    assert(qw * cell_w() == cell_w() * qw) by (nonlinear_arith);
    assert(qh * cell_h() == cell_h() * qh) by (nonlinear_arith);
}

pub proof fn lemma_cell_in_screen(width: int, height: int, col: int, row: int)
    requires
        width >= 2 * BORDER_PADDING + cell_w(),
        height >= 2 * BORDER_PADDING + cell_h(),
        0 <= col < spec_cols(width),
        0 <= row < spec_rows(height),
    ensures
        BORDER_PADDING <= cell_x(col),
        BORDER_PADDING <= cell_y(row),
        cell_x(col) + cell_w() <= width - BORDER_PADDING,
        cell_y(row) + cell_h() <= height - BORDER_PADDING,
{
    lemma_geometry(width, height);
    lemma_mul_inequality(col + 1, spec_cols(width), cell_w());
    lemma_mul_inequality(row + 1, spec_rows(height), cell_h());
    assert((col + 1) * cell_w() == col * cell_w() + cell_w()) by (nonlinear_arith);
    assert((row + 1) * cell_h() == row * cell_h() + cell_h()) by (nonlinear_arith);
    assert(0 <= col * cell_w()) by (nonlinear_arith)
        requires 0 <= col;
    assert(0 <= row * cell_h()) by (nonlinear_arith)
        requires 0 <= row;
}

/// A caret whose cell is on screen sits on or left of the grid's column
/// count, and on or above its row count.
pub proof fn lemma_caret_in_grid(width: int, height: int, x: int, y: int)
    requires
        width >= 2 * BORDER_PADDING + cell_w(),
        height >= 2 * BORDER_PADDING + cell_h(),
        0 <= x && x + CHAR_WIDTH <= width,
        0 <= y && y + CHAR_HEIGHT <= height,
    ensures
        0 <= col_at(x) <= spec_cols(width),
        0 <= row_at(y) <= spec_rows(height),
{
    lemma_geometry(width, height);
    if x > BORDER_PADDING {
        lemma_div_pos_is_pos(x - BORDER_PADDING, cell_w());
        lemma_div_is_ordered(x - BORDER_PADDING, width - 2 * BORDER_PADDING, cell_w());
    }
    if y > BORDER_PADDING {
        lemma_div_pos_is_pos(y - BORDER_PADDING, cell_h());
        lemma_div_is_ordered(y - BORDER_PADDING, height - 2 * BORDER_PADDING, cell_h());
    }
}

/// The column under a cell's left edge is the cell's own column, and the
/// row under a cell's top edge is the cell's own row; likewise for any
/// pixel offset within the cell's pitch.
pub proof fn lemma_cell_coords(col: int, row: int, dx: int, dy: int)
    requires
        0 <= col,
        0 <= row,
        0 <= dx < cell_w(),
        0 <= dy < cell_h(),
    ensures
        col_at(cell_x(col) + dx) == col,
        row_at(cell_y(row) + dy) == row,
        (cell_x(col) + dx - BORDER_PADDING) % cell_w() == dx,
{
    lemma_fundamental_div_mod_converse(col * cell_w() + dx, cell_w(), col, dx);
    lemma_fundamental_div_mod_converse(row * cell_h() + dy, cell_h(), row, dy);
}

/// Every pixel column at or right of a cell's left edge maps to that
/// cell's column or a later one.
pub proof fn lemma_cell_x_le(px: int, col: int)
    requires
        0 <= col,
        cell_x(col) <= px,
    ensures
        col <= col_at(px),
{
    lemma_div_by_multiple(col, cell_w());
    lemma_div_is_ordered(col * cell_w(), px - BORDER_PADDING, cell_w());
    assert(0 <= col * cell_w()) by (nonlinear_arith)
        requires 0 <= col;
}

/// A pixel column decomposes uniquely into a grid column and an offset
/// within that cell's pitch.
pub proof fn lemma_band_decomp(px: int)
    requires
        BORDER_PADDING <= px,
    ensures
        0 <= col_at(px),
        px == cell_x(col_at(px)) + (px - BORDER_PADDING) % cell_w(),
        0 <= (px - BORDER_PADDING) % cell_w() < cell_w(),
{
    lemma_fundamental_div_mod(px - BORDER_PADDING, cell_w());
    lemma_mod_bound(px - BORDER_PADDING, cell_w());
    let q = (px - BORDER_PADDING) / cell_w();
    if px > BORDER_PADDING {
        lemma_div_pos_is_pos(px - BORDER_PADDING, cell_w());
    } else {
        lemma_div_by_self(cell_w());
        assert(q == 0);
    }
    assert(q * cell_w() == cell_w() * q) by (nonlinear_arith);
}

/// A pixel column inside the band of `cols` cells maps to a column below
/// `cols`.
pub proof fn lemma_band_col_lt(px: int, cols: int)
    requires
        0 <= cols,
        BORDER_PADDING <= px < BORDER_PADDING + cols * cell_w(),
    ensures
        col_at(px) < cols,
{
    assert(cols * cell_w() == cell_w() * cols) by (nonlinear_arith);
    lemma_multiply_divide_lt(px - BORDER_PADDING, cell_w(), cols);
}

/// Whether pixel (px, py) lies inside one of the glyph rectangles of grid
/// row `row`, for a grid of `cols` columns.
pub open spec fn in_row_band(cols: int, row: int, px: int, py: int) -> bool {
    &&& BORDER_PADDING <= px < BORDER_PADDING + cols * cell_w()
    &&& (px - BORDER_PADDING) % cell_w() < CHAR_WIDTH
    &&& cell_y(row) <= py < cell_y(row) + CHAR_HEIGHT
}

/// The surface after grid row `row` was redrawn from the shadow grid:
/// every glyph rectangle of the row shows its cell's content, everything
/// else kept its bytes.
pub open spec fn row_redrawn(pre: FrameBufferWriter, s: PixelSurface, row: int) -> bool {
    &&& s.info == pre.surface.info
    &&& s.buf.len() == pre.surface.buf.len()
    &&& forall|px: int, py: int| pre.surface.valid_xy(px, py)
        ==> #[trigger] s.pix(px, py) == (
            if in_row_band(pre@.cols, row, px, py) {
                encoded(pre.surface.info.pixel_format,
                    cell_glyph_pixel(pre@.cells[row][col_at(px)], py - cell_y(row),
                        px - cell_x(col_at(px))),
                    pre.surface.info.bytes_per_pixel as int)
            } else {
                pre.surface.pix(px, py)
            })
}

/// The surface after the caret cell was filled with the cursor intensity;
/// every other pixel kept its bytes.
pub open spec fn draw_post(pre: FrameBufferWriter, s: PixelSurface) -> bool {
    &&& s.info == pre.surface.info
    &&& s.buf.len() == pre.surface.buf.len()
    &&& forall|px: int, py: int| pre.surface.valid_xy(px, py)
        ==> #[trigger] s.pix(px, py) == (
            if in_rect(px, py, pre.x_pos as int, pre.y_pos as int, CHAR_WIDTH as int, CHAR_HEIGHT as int) {
                encoded(pre.surface.info.pixel_format, CURSOR_INTENSITY,
                    pre.surface.info.bytes_per_pixel as int)
            } else {
                pre.surface.pix(px, py)
            })
}

/// One pixel byte of a grid cell's content: the glyph of its character,
/// or blank for an empty cell.
pub open spec fn cell_glyph_pixel(cell: Option<char>, dy: int, dx: int) -> u8 {
    match cell {
        Some(c) => bitmap_pixel(glyph_of(c), dy, dx),
        None => 0u8,
    }
}

/// The bytes of pixel (px, py) after the caret cell was erased: the caret
/// rectangle is blanked, then the grid character under the caret (if any)
/// is redrawn over its own cell.
pub open spec fn erased_pix(pre: FrameBufferWriter, px: int, py: int) -> Seq<u8> {
    let v = pre@;
    let row = row_at(v.y);
    let col = col_at(v.x);
    let fmt = pre.surface.info.pixel_format;
    let bpp = pre.surface.info.bytes_per_pixel as int;
    if row < v.rows && col < v.cols && v.cells[row][col] is Some
        && in_rect(px, py, cell_x(col), cell_y(row), CHAR_WIDTH as int, CHAR_HEIGHT as int) {
        encoded(fmt, bitmap_pixel(glyph_of(v.cells[row][col]->Some_0), py - cell_y(row), px - cell_x(col)), bpp)
    } else if in_rect(px, py, v.x, v.y, CHAR_WIDTH as int, CHAR_HEIGHT as int) {
        encoded(fmt, 0u8, bpp)
    } else {
        pre.surface.pix(px, py)
    }
}

/// The surface after the caret cell was erased.
pub open spec fn erase_post(pre: FrameBufferWriter, s: PixelSurface) -> bool {
    &&& s.info == pre.surface.info
    &&& s.buf.len() == pre.surface.buf.len()
    &&& forall|px: int, py: int| pre.surface.valid_xy(px, py)
        ==> #[trigger] s.pix(px, py) == erased_pix(pre, px, py)
}

/// Every pixel of the caret cell shows the caret fill: the visual
/// representation that goes with a visible caret.
pub open spec fn caret_drawn(w: FrameBufferWriter) -> bool {
    forall|px: int, py: int|
        w.surface.valid_xy(px, py)
            && in_rect(px, py, w@.x, w@.y, CHAR_WIDTH as int, CHAR_HEIGHT as int)
            ==> #[trigger] w.surface.pix(px, py)
                == encoded(w.surface.info.pixel_format, CURSOR_INTENSITY,
                    w.surface.info.bytes_per_pixel as int)
}

/// The caret sits exactly on a grid cell, and that cell's pixels agree
/// with the visibility flag: the caret fill when visible, the underlying
/// cell content when not.
pub open spec fn caret_coherent(w: FrameBufferWriter) -> bool {
    let v = w@;
    let col = col_at(v.x);
    let row = row_at(v.y);
    &&& v.x == cell_x(col)
    &&& v.y == cell_y(row)
    &&& 0 <= col < v.cols
    &&& 0 <= row < v.rows
    &&& forall|px: int, py: int|
        w.surface.valid_xy(px, py)
            && in_rect(px, py, v.x, v.y, CHAR_WIDTH as int, CHAR_HEIGHT as int)
            ==> #[trigger] w.surface.pix(px, py) == (
                if v.visible {
                    encoded(w.surface.info.pixel_format, CURSOR_INTENSITY,
                        w.surface.info.bytes_per_pixel as int)
                } else {
                    encoded(w.surface.info.pixel_format,
                        cell_glyph_pixel(v.cells[row][col], py - v.y, px - v.x),
                        w.surface.info.bytes_per_pixel as int)
                })
}

/// What one caret toggle does: the visibility flips, and the caret cell is
/// drawn or erased accordingly; nothing else changes.
pub open spec fn toggle_rel(pre: FrameBufferWriter, post: FrameBufferWriter) -> bool {
    &&& post@ == ConsoleView { visible: !pre@.visible, ..pre@ }
    &&& post.surface.info == pre.surface.info
    &&& (pre@.visible ==> erase_post(pre, post.surface))
    &&& (!pre@.visible ==> draw_post(pre, post.surface))
}

/// The surface of a console that was just cleared: every pixel blank but
/// the caret cell at the drawable origin, which is drawn.
pub open spec fn cleared_pixels(s: PixelSurface) -> bool {
    forall|px: int, py: int| s.valid_xy(px, py)
        ==> #[trigger] s.pix(px, py) == (
            if in_rect(px, py, BORDER_PADDING as int, BORDER_PADDING as int,
                CHAR_WIDTH as int, CHAR_HEIGHT as int) {
                encoded(s.info.pixel_format, CURSOR_INTENSITY, s.info.bytes_per_pixel as int)
            } else {
                encoded(s.info.pixel_format, 0u8, s.info.bytes_per_pixel as int)
            })
}

/// A character that the writer inserts into the grid rather than treating
/// as caret control.
pub open spec fn is_printable(c: char) -> bool {
    c != '\t' && c != '\n' && c != '\r'
}

/// The surface after a pure caret move: the caret was erased at the old
/// position and drawn at the new one, and no other pixel was touched — the
/// new caret cell is filled, everything else shows the erased old state.
pub open spec fn moved_pixels(pre: FrameBufferWriter, post: FrameBufferWriter) -> bool {
    &&& post.surface.info == pre.surface.info
    &&& post.surface.buf.len() == pre.surface.buf.len()
    &&& forall|px: int, py: int| pre.surface.valid_xy(px, py)
        ==> #[trigger] post.surface.pix(px, py) == (
            if in_rect(px, py, post@.x, post@.y, CHAR_WIDTH as int, CHAR_HEIGHT as int) {
                encoded(pre.surface.info.pixel_format, CURSOR_INTENSITY,
                    pre.surface.info.bytes_per_pixel as int)
            } else {
                erased_pix(pre, px, py)
            })
}

/// The surface after one grid row was redrawn from the new grid, with no
/// other pixel touched.
pub open spec fn row_repainted(pre: FrameBufferWriter, post: FrameBufferWriter, row: int) -> bool {
    &&& post.surface.info == pre.surface.info
    &&& post.surface.buf.len() == pre.surface.buf.len()
    &&& forall|px: int, py: int| pre.surface.valid_xy(px, py)
        ==> #[trigger] post.surface.pix(px, py) == (
            if in_row_band(post@.cols, row, px, py) {
                encoded(pre.surface.info.pixel_format,
                    cell_glyph_pixel(post@.cells[row][col_at(px)], py - cell_y(row),
                        px - cell_x(col_at(px))),
                    pre.surface.info.bytes_per_pixel as int)
            } else {
                pre.surface.pix(px, py)
            })
}

/// As `row_repainted`, with the caret also drawn at the new position after
/// a wrap out of the row's last cell. The erase that precedes the wrap
/// blanks the caret rectangle at the old caret height `oldy`; where that
/// rectangle reaches below the row band (an unaligned caret), the blanked
/// remainder stays.
pub open spec fn row_repainted_wrapped(pre: FrameBufferWriter, post: FrameBufferWriter, row: int,
    oldy: int) -> bool {
    &&& post.surface.info == pre.surface.info
    &&& post.surface.buf.len() == pre.surface.buf.len()
    &&& forall|px: int, py: int| pre.surface.valid_xy(px, py)
        ==> #[trigger] post.surface.pix(px, py) == (
            if in_rect(px, py, post@.x, post@.y, CHAR_WIDTH as int, CHAR_HEIGHT as int) {
                encoded(pre.surface.info.pixel_format, CURSOR_INTENSITY,
                    pre.surface.info.bytes_per_pixel as int)
            } else if in_row_band(post@.cols, row, px, py) {
                encoded(pre.surface.info.pixel_format,
                    cell_glyph_pixel(post@.cells[row][col_at(px)], py - cell_y(row),
                        px - cell_x(col_at(px))),
                    pre.surface.info.bytes_per_pixel as int)
            } else if in_rect(px, py, cell_x(post@.cols - 1), oldy, CHAR_WIDTH as int,
                CHAR_HEIGHT as int) {
                encoded(pre.surface.info.pixel_format, 0u8,
                    pre.surface.info.bytes_per_pixel as int)
            } else {
                pre.surface.pix(px, py)
            })
}

/// As `edited_pixels`, for an edit whose caret wrapped out of the row's
/// last cell: the wrap's own erase blanks the caret rectangle at the old
/// caret height `oldy`, and the blanked remainder below the row band stays.
pub open spec fn edited_pixels_wrapped(pre: FrameBufferWriter, post: FrameBufferWriter, row: int,
    oldy: int) -> bool {
    &&& post.surface.info == pre.surface.info
    &&& post.surface.buf.len() == pre.surface.buf.len()
    &&& forall|px: int, py: int| pre.surface.valid_xy(px, py)
        ==> #[trigger] post.surface.pix(px, py) == (
            if in_rect(px, py, post@.x, post@.y, CHAR_WIDTH as int, CHAR_HEIGHT as int) {
                encoded(pre.surface.info.pixel_format, CURSOR_INTENSITY,
                    pre.surface.info.bytes_per_pixel as int)
            } else if in_row_band(post@.cols, row, px, py) {
                encoded(pre.surface.info.pixel_format,
                    cell_glyph_pixel(post@.cells[row][col_at(px)], py - cell_y(row),
                        px - cell_x(col_at(px))),
                    pre.surface.info.bytes_per_pixel as int)
            } else if in_rect(px, py, cell_x(post@.cols - 1), oldy, CHAR_WIDTH as int,
                CHAR_HEIGHT as int) {
                encoded(pre.surface.info.pixel_format, 0u8,
                    pre.surface.info.bytes_per_pixel as int)
            } else {
                erased_pix(pre, px, py)
            })
}

/// The surface after a line edit: the caret was erased at the old position,
/// the affected row redrawn from the new grid, and the caret drawn at the
/// new position; nothing else was touched.
pub open spec fn edited_pixels(pre: FrameBufferWriter, post: FrameBufferWriter, row: int) -> bool {
    &&& post.surface.info == pre.surface.info
    &&& post.surface.buf.len() == pre.surface.buf.len()
    &&& forall|px: int, py: int| pre.surface.valid_xy(px, py)
        ==> #[trigger] post.surface.pix(px, py) == (
            if in_rect(px, py, post@.x, post@.y, CHAR_WIDTH as int, CHAR_HEIGHT as int) {
                encoded(pre.surface.info.pixel_format, CURSOR_INTENSITY,
                    pre.surface.info.bytes_per_pixel as int)
            } else if in_row_band(post@.cols, row, px, py) {
                encoded(pre.surface.info.pixel_format,
                    cell_glyph_pixel(post@.cells[row][col_at(px)], py - cell_y(row),
                        px - cell_x(col_at(px))),
                    pre.surface.info.bytes_per_pixel as int)
            } else {
                erased_pix(pre, px, py)
            })
}

/// Erasing the caret cell of an already-erased console changes nothing:
/// the erased content is determined by the caret position and the grid
/// alone, not by what was under them.
pub proof fn lemma_erased_pix_stable(pre: FrameBufferWriter, mid: FrameBufferWriter)
    requires
        mid@ == (ConsoleView { visible: false, ..pre@ }),
        mid.surface.info == pre.surface.info,
        mid.surface.buf.len() == pre.surface.buf.len(),
        erase_post(pre, mid.surface),
    ensures
        forall|px: int, py: int| pre.surface.valid_xy(px, py)
            ==> erased_pix(mid, px, py) == erased_pix(pre, px, py),
{
    assert forall|px: int, py: int| pre.surface.valid_xy(px, py)
        implies erased_pix(mid, px, py) == erased_pix(pre, px, py) by {
        assert(mid.surface.pix(px, py) == erased_pix(pre, px, py));
    }
}

/// Logs text to a pixel framebuffer, keeping an editable shadow grid and a
/// movable caret.
pub struct FrameBufferWriter {
    /// The framebuffer and its descriptor.
    pub surface: PixelSurface,
    /// The shadow text grid.
    pub grid: TextGrid,
    /// Caret x position, in pixels.
    pub x_pos: usize,
    /// Caret y position, in pixels.
    pub y_pos: usize,
    /// Whether the caret is currently drawn.
    pub cursor_visible: bool,
}

impl View for FrameBufferWriter {
    type V = ConsoleView;

    open spec fn view(&self) -> ConsoleView {
        ConsoleView {
            width: self.surface.info.width as int,
            height: self.surface.info.height as int,
            cols: self.grid.cols as int,
            rows: self.grid.rows as int,
            cells: self.grid.row_view(),
            x: self.x_pos as int,
            y: self.y_pos as int,
            visible: self.cursor_visible,
        }
    }
}

impl FrameBufferWriter {
    pub open spec fn wf(self) -> bool {
        &&& self.surface.wf()
        &&& self.grid.wf()
        &&& inv(self@)
    }

    fn width(&self) -> (r: usize)
        ensures
            r as int == self@.width,
    {
        self.surface.info.width
    }

    fn height(&self) -> (r: usize)
        ensures
            r as int == self@.height,
    {
        self.surface.info.height
    }

    /// Grid column the caret is over.
    fn current_col(&self) -> (r: usize)
        requires
            self.wf(),
        ensures
            r as int == col_at(self@.x),
            r <= self@.cols,
            self@.x < BORDER_PADDING + self@.cols * cell_w() ==> (r as int) < self@.cols,
    {
        proof {
            lemma_caret_in_grid(self@.width, self@.height, self@.x, self@.y);
            lemma_geometry(self@.width, self@.height);
            if BORDER_PADDING <= self@.x && self@.x < BORDER_PADDING + self@.cols * cell_w() {
                lemma_band_col_lt(self@.x, self@.cols);
            }
        }
        let sx = if self.x_pos > BORDER_PADDING { self.x_pos - BORDER_PADDING } else { 0 };
        sx / (CHAR_WIDTH + LETTER_SPACING)
    }

    /// Grid row the caret is over.
    fn current_row(&self) -> (r: usize)
        requires
            self.wf(),
        ensures
            r as int == row_at(self@.y),
            r <= self@.rows,
            self@.y < BORDER_PADDING + self@.rows * cell_h() ==> (r as int) < self@.rows,
    {
        proof {
            lemma_caret_in_grid(self@.width, self@.height, self@.x, self@.y);
            lemma_geometry(self@.width, self@.height);
            if BORDER_PADDING <= self@.y && self@.y < BORDER_PADDING + self@.rows * cell_h() {
                assert(self@.rows * cell_h() == cell_h() * self@.rows) by (nonlinear_arith);
                lemma_multiply_divide_lt(self@.y - BORDER_PADDING, cell_h(), self@.rows);
            }
        }
        let sy = if self.y_pos > BORDER_PADDING { self.y_pos - BORDER_PADDING } else { 0 };
        sy / (CHAR_HEIGHT + LINE_SPACING)
    }

    /// Fills the caret cell so the caret is visible over any glyph.
    pub fn draw_cursor(&mut self)
        requires
            old(self).wf(),
        ensures
            final(self).wf(),
            final(self)@ == (ConsoleView { visible: true, ..old(self)@ }),
            draw_post(*old(self), final(self).surface),
    {
        self.cursor_visible = true;
        self.surface.fill_rect(self.x_pos, self.y_pos, CHAR_WIDTH, CHAR_HEIGHT, CURSOR_INTENSITY);
    }

    /// Renders one glyph with its top-left corner at pixel (x0, y0).
    fn draw_char_at(&mut self, c: char, x0: usize, y0: usize)
        requires
            old(self).surface.wf(),
            x0 + CHAR_WIDTH <= old(self).surface.info.width,
            y0 + CHAR_HEIGHT <= old(self).surface.info.height,
        ensures
            final(self).surface.wf(),
            final(self).surface.info == old(self).surface.info,
            final(self).surface.buf.len() == old(self).surface.buf.len(),
            final(self).grid == old(self).grid,
            final(self).x_pos == old(self).x_pos,
            final(self).y_pos == old(self).y_pos,
            final(self).cursor_visible == old(self).cursor_visible,
            forall|px: int, py: int| old(self).surface.valid_xy(px, py)
                ==> #[trigger] final(self).surface.pix(px, py) == (
                    if in_rect(px, py, x0 as int, y0 as int, CHAR_WIDTH as int, CHAR_HEIGHT as int) {
                        encoded(old(self).surface.info.pixel_format,
                            bitmap_pixel(glyph_of(c), py - y0, px - x0),
                            old(self).surface.info.bytes_per_pixel as int)
                    } else {
                        old(self).surface.pix(px, py)
                    }),
    {
        let glyph = get_char_raster(c);
        self.surface.blit_glyph(x0, y0, &glyph);
    }

    /// Blanks the caret cell, then redraws the grid character under it so
    /// the glyph is not lost.
    pub fn erase_cursor(&mut self)
        requires
            old(self).wf(),
        ensures
            final(self).wf(),
            final(self)@ == (ConsoleView { visible: false, ..old(self)@ }),
            erase_post(*old(self), final(self).surface),
    {
        if self.cursor_visible {
            self.cursor_visible = false;
        }
        self.surface.fill_rect(self.x_pos, self.y_pos, CHAR_WIDTH, CHAR_HEIGHT, 0);
        let row = self.current_row();
        let col = self.current_col();
        if row < self.grid.rows && col < self.grid.cols {
            proof {
                lemma_geometry(self@.width, self@.height);
                lemma_cell_in_screen(self@.width, self@.height, col as int, row as int);
            }
            match self.grid.get(row, col) {
                Some(ch) => {
                    let cx = BORDER_PADDING + col * (CHAR_WIDTH + LETTER_SPACING);
                    let cy = BORDER_PADDING + row * (CHAR_HEIGHT + LINE_SPACING);
                    self.draw_char_at(ch, cx, cy);
                },
                None => {},
            }
        }
    }

    /// Flips the caret between drawn and erased; intended for the timer
    /// interrupt handler's blink.
    pub fn toggle_cursor(&mut self)
        requires
            old(self).wf(),
        ensures
            final(self).wf(),
            toggle_rel(*old(self), *final(self)),
    {
        if self.cursor_visible {
            self.erase_cursor();
        } else {
            self.draw_cursor();
        }
    }

    /// Forces the caret to the drawn state.
    pub fn reset_cursor(&mut self)
        requires
            old(self).wf(),
        ensures
            final(self).wf(),
            final(self)@ == (ConsoleView { visible: true, ..old(self)@ }),
            draw_post(*old(self), final(self).surface),
    {
        self.cursor_visible = true;
        self.draw_cursor();
    }

    /// Moves the caret to pixel column `x`.
    pub fn set_x_pos(&mut self, x: usize)
        requires
            old(self).wf(),
            x + CHAR_WIDTH <= old(self)@.width,
        ensures
            final(self).wf(),
            final(self)@ == (ConsoleView { x: x as int, visible: true, ..old(self)@ }),
            moved_pixels(*old(self), *final(self)),
    {
        self.erase_cursor();
        self.x_pos = x;
        self.draw_cursor();
    }

    /// Moves the caret to pixel row `y`.
    pub fn set_y_pos(&mut self, y: usize)
        requires
            old(self).wf(),
            y + CHAR_HEIGHT <= old(self)@.height,
        ensures
            final(self).wf(),
            final(self)@ == (ConsoleView { y: y as int, visible: true, ..old(self)@ }),
            moved_pixels(*old(self), *final(self)),
    {
        self.erase_cursor();
        self.y_pos = y;
        self.draw_cursor();
    }

    /// Redraws one grid row from the shadow grid: blanks each glyph
    /// rectangle of the row and re-blits every occupied cell.
    #[verifier::loop_isolation(false)]
    fn redraw_line(&mut self, row: usize)
        requires
            old(self).wf(),
        ensures
            final(self).wf(),
            final(self)@ == old(self)@,
            final(self).grid == old(self).grid,
            final(self).x_pos == old(self).x_pos,
            final(self).y_pos == old(self).y_pos,
            final(self).cursor_visible == old(self).cursor_visible,
            final(self).surface.info == old(self).surface.info,
            final(self).surface.buf.len() == old(self).surface.buf.len(),
            row < old(self)@.rows ==> row_redrawn(*old(self), final(self).surface, row as int),
            row >= old(self)@.rows ==> final(self).surface == old(self).surface,
    {
        if row >= self.grid.rows {
            return;
        }
        proof {
            lemma_geometry(self@.width, self@.height);
        }
        let cols = self.grid.cols;
        let y0 = BORDER_PADDING + row * (CHAR_HEIGHT + LINE_SPACING);
        proof {
            lemma_cell_in_screen(self@.width, self@.height, 0, row as int);
        }
        let mut col: usize = 0;
        while col < cols
            invariant
                col <= cols,
                self.grid == old(self).grid,
                self.x_pos == old(self).x_pos,
                self.y_pos == old(self).y_pos,
                self.cursor_visible == old(self).cursor_visible,
                self.surface.wf(),
                self.surface.info == old(self).surface.info,
                self.surface.buf.len() == old(self).surface.buf.len(),
                forall|px: int, py: int| old(self).surface.valid_xy(px, py)
                    ==> #[trigger] self.surface.pix(px, py) == (
                        if in_row_band(old(self)@.cols, row as int, px, py) && col_at(px) < col {
                            encoded(old(self).surface.info.pixel_format,
                                cell_glyph_pixel(old(self)@.cells[row as int][col_at(px)],
                                    py - cell_y(row as int), px - cell_x(col_at(px))),
                                old(self).surface.info.bytes_per_pixel as int)
                        } else {
                            old(self).surface.pix(px, py)
                        }),
            decreases cols - col,
        {
            proof {
                lemma_cell_in_screen(self@.width, self@.height, col as int, row as int);
            }
            let x0 = BORDER_PADDING + col * (CHAR_WIDTH + LETTER_SPACING);
            self.surface.fill_rect(x0, y0, CHAR_WIDTH, CHAR_HEIGHT, 0);
            let cellv = self.grid.get(row, col);
            match cellv {
                Some(ch) => {
                    self.draw_char_at(ch, x0, y0);
                },
                None => {},
            }
            proof {
                let ov = old(self)@;
                assert forall|px: int, py: int| old(self).surface.valid_xy(px, py)
                    implies #[trigger] self.surface.pix(px, py) == (
                        if in_row_band(ov.cols, row as int, px, py) && col_at(px) < col + 1 {
                            encoded(old(self).surface.info.pixel_format,
                                cell_glyph_pixel(ov.cells[row as int][col_at(px)],
                                    py - cell_y(row as int), px - cell_x(col_at(px))),
                                old(self).surface.info.bytes_per_pixel as int)
                        } else {
                            old(self).surface.pix(px, py)
                        }) by {
                    if in_rect(px, py, x0 as int, y0 as int, CHAR_WIDTH as int, CHAR_HEIGHT as int) {
                        lemma_cell_coords(col as int, row as int, px - x0, py - y0);
                        lemma_band_decomp(px);
                        assert(col_at(px) == col);
                        assert(in_row_band(ov.cols, row as int, px, py)) by {
                            lemma_cell_in_screen(ov.width, ov.height, col as int, row as int);
                            assert((col as int + 1) * cell_w() <= ov.cols * cell_w()) by (nonlinear_arith)
                                requires col as int + 1 <= ov.cols, 0 < cell_w();
                            assert((col as int + 1) * cell_w() == col as int * cell_w() + cell_w()) by (nonlinear_arith);
                        }
                    } else {
                        if BORDER_PADDING <= px {
                            lemma_band_decomp(px);
                            if col_at(px) == col && in_row_band(ov.cols, row as int, px, py) {
                                assert(in_rect(px, py, x0 as int, y0 as int, CHAR_WIDTH as int,
                                    CHAR_HEIGHT as int));
                            }
                            if cell_x(col as int) <= px {
                                lemma_cell_x_le(px, col as int);
                            }
                        }
                    }
                }
            }
            col += 1;
        }
        proof {
            let ov = old(self)@;
            assert forall|px: int, py: int| old(self).surface.valid_xy(px, py)
                    && in_row_band(ov.cols, row as int, px, py)
                    implies col_at(px) < ov.cols by {
                lemma_band_col_lt(px, ov.cols);
            }
        }
    }

    /// Erases all text: recomputes and empties the grid, blanks the whole
    /// framebuffer, and draws the caret at the drawable origin.
    pub fn clear(&mut self)
        requires
            old(self).surface.wf(),
            min_dims(old(self).surface.info),
        ensures
            final(self).wf(),
            final(self)@ == step_clear(old(self)@),
            final(self).surface.info == old(self).surface.info,
            cleared_pixels(final(self).surface),
    {
        let width = self.surface.info.width;
        let height = self.surface.info.height;
        proof {
            lemma_geometry(width as int, height as int);
            lemma_grid_fits(self.surface.info, self.surface.buf.len() as int);
        }
        self.grid.resize_for(width, height);
        self.x_pos = BORDER_PADDING;
        self.y_pos = BORDER_PADDING;
        self.surface.fill_zero();
        self.cursor_visible = true;
        let ghost mid = *self;
        proof {
            assert forall|px: int, py: int| mid.surface.valid_xy(px, py)
                implies #[trigger] mid.surface.pix(px, py)
                    == encoded(mid.surface.info.pixel_format, 0u8,
                        mid.surface.info.bytes_per_pixel as int) by {
                crate::pixel::lemma_boff_bounds(mid.surface.info, mid.surface.buf.len() as int,
                    px, py);
                assert(mid.surface.pix(px, py) =~= encoded(mid.surface.info.pixel_format, 0u8,
                    mid.surface.info.bytes_per_pixel as int));
            }
        }
        self.draw_cursor();
        proof {
            assert(self@ =~~= step_clear(old(self)@));
        }
    }

    /// Advances the caret by the tab offset, clamped to keep the caret
    /// cell on screen; the shadow grid is not touched, so a later redraw
    /// of the row will not preserve the visual gap.
    fn tab(&mut self)
        requires
            old(self).wf(),
        ensures
            final(self).wf(),
            final(self)@ == step_tab(old(self)@),
            final(self).surface == old(self).surface,
    {
        let limit = self.width() - CHAR_WIDTH;
        if TAB_SPACING <= limit && self.x_pos <= limit - TAB_SPACING {
            self.x_pos = self.x_pos + TAB_SPACING;
        } else {
            self.x_pos = limit;
        }
    }

    /// Moves the caret to the left margin of the next row; past the last
    /// row the whole console is cleared instead of scrolling.
    fn newline(&mut self)
        requires
            old(self).wf(),
        ensures
            final(self).wf(),
            final(self)@ == step_newline(old(self)@),
            final(self).surface.info == old(self).surface.info,
            row_at(old(self)@.y) + 1 < old(self)@.rows
                ==> moved_pixels(*old(self), *final(self)),
            row_at(old(self)@.y) + 1 >= old(self)@.rows
                ==> cleared_pixels(final(self).surface),
    {
        self.erase_cursor();
        let mut row = self.current_row() + 1;
        if row >= self.grid.rows {
            self.clear();
            row = 0;
        }
        proof {
            lemma_geometry(self@.width, self@.height);
            lemma_cell_in_screen(self@.width, self@.height, 0, row as int);
        }
        self.x_pos = BORDER_PADDING;
        self.y_pos = BORDER_PADDING + row * (CHAR_HEIGHT + LINE_SPACING);
        self.draw_cursor();
        proof {
            assert(self@ =~~= step_newline(old(self)@));
        }
    }

    /// Moves the caret to the left margin of its current row.
    fn carriage_return(&mut self)
        requires
            old(self).wf(),
        ensures
            final(self).wf(),
            final(self)@ == step_carriage_return(old(self)@),
            moved_pixels(*old(self), *final(self)),
    {
        self.erase_cursor();
        self.x_pos = BORDER_PADDING;
        self.draw_cursor();
    }

    /// Inserts a printable character at the caret cell: shifts the rest of
    /// the row right, redraws the row, and advances the caret.
    fn insert_into_buffer(&mut self, c: char)
        requires
            old(self).wf(),
        ensures
            final(self).wf(),
            final(self)@ == step_insert_at(old(self)@, c),
            final(self).surface.info == old(self).surface.info,
            (row_at(old(self)@.y) >= old(self)@.rows || col_at(old(self)@.x) >= old(self)@.cols)
                ==> final(self).surface == old(self).surface,
            (row_at(old(self)@.y) < old(self)@.rows && col_at(old(self)@.x) < old(self)@.cols
                && col_at(old(self)@.x) + 1 < old(self)@.cols)
                ==> row_repainted(*old(self), *final(self), row_at(old(self)@.y)),
            (row_at(old(self)@.y) < old(self)@.rows && col_at(old(self)@.x) < old(self)@.cols
                && col_at(old(self)@.x) + 1 >= old(self)@.cols
                && row_at(old(self)@.y) + 1 < old(self)@.rows)
                ==> row_repainted_wrapped(*old(self), *final(self), row_at(old(self)@.y),
                    old(self)@.y),
            (row_at(old(self)@.y) < old(self)@.rows && col_at(old(self)@.x) < old(self)@.cols
                && col_at(old(self)@.x) + 1 >= old(self)@.cols
                && row_at(old(self)@.y) + 1 >= old(self)@.rows)
                ==> cleared_pixels(final(self).surface),
    {
        let row = self.current_row();
        let col = self.current_col();
        if row >= self.grid.rows || col >= self.grid.cols {
            return;
        }
        self.grid.shift_right_from(row, col, c);
        proof {
            let ov = old(self)@;
            let expect = ov.cells.update(row as int, row_insert(ov.cells[row as int],
                col as int, c));
            assert forall|r: int| 0 <= r < self.grid.rows as int
                    implies self.grid.row_view()[r] =~= expect[r] by {}
            assert(self.grid.row_view() =~~= expect);
        }
        self.redraw_line(row);
        proof {
            lemma_geometry(self@.width, self@.height);
        }
        let next_col = if col + 1 < self.grid.cols { col + 1 } else { self.grid.cols - 1 };
        proof {
            lemma_cell_in_screen(self@.width, self@.height, next_col as int, row as int);
        }
        self.x_pos = BORDER_PADDING + next_col * (CHAR_WIDTH + LETTER_SPACING);
        if col + 1 >= self.grid.cols {
            self.newline();
        }
        proof {
            assert(self@ =~~= step_insert_at(old(self)@, c));
        }
    }

    /// Writes a single character, dispatching control characters: tab,
    /// newline and carriage return move the caret; anything else is
    /// inserted into the grid and rendered.
    pub fn write_char(&mut self, c: char)
        requires
            old(self).wf(),
        ensures
            final(self).wf(),
            final(self)@ == step_char(old(self)@, c),
            final(self).surface.info == old(self).surface.info,
            caret_drawn(*final(self)),
            (c == '\t' || c == '\r') ==> moved_pixels(*old(self), *final(self)),
            c == '\n' && row_at(old(self)@.y) + 1 < old(self)@.rows
                ==> moved_pixels(*old(self), *final(self)),
            c == '\n' && row_at(old(self)@.y) + 1 >= old(self)@.rows
                ==> cleared_pixels(final(self).surface),
            is_printable(c) && row_at(old(self)@.y) < old(self)@.rows
                && col_at(old(self)@.x) < old(self)@.cols
                && col_at(old(self)@.x) + 1 < old(self)@.cols
                ==> edited_pixels(*old(self), *final(self), row_at(old(self)@.y)),
            is_printable(c) && row_at(old(self)@.y) < old(self)@.rows
                && col_at(old(self)@.x) < old(self)@.cols
                && col_at(old(self)@.x) + 1 >= old(self)@.cols
                && row_at(old(self)@.y) + 1 < old(self)@.rows
                ==> edited_pixels_wrapped(*old(self), *final(self), row_at(old(self)@.y),
                    old(self)@.y),
            is_printable(c) && row_at(old(self)@.y) < old(self)@.rows
                && col_at(old(self)@.x) < old(self)@.cols
                && col_at(old(self)@.x) + 1 >= old(self)@.cols
                && row_at(old(self)@.y) + 1 >= old(self)@.rows
                ==> cleared_pixels(final(self).surface),
    {
        self.erase_cursor();
        match c {
            '\t' => self.tab(),
            '\n' => self.newline(),
            '\r' => self.carriage_return(),
            _ => {
                if self.current_col() >= self.grid.cols {
                    self.newline();
                }
                if self.current_row() >= self.grid.rows {
                    self.clear();
                }
                self.insert_into_buffer(c);
            },
        }
        self.draw_cursor();
        proof {
            assert(self@ =~~= step_char(old(self)@, c));
        }
    }

    /// Writes a string: each of its characters in sequence.
    pub fn write_str(&mut self, s: &str)
        requires
            old(self).wf(),
        ensures
            final(self).wf(),
            final(self)@ == step_str(old(self)@, s@),
            final(self).surface.info == old(self).surface.info,
            s@.len() > 0 ==> caret_drawn(*final(self)),
    {
        let ghost v0 = old(self)@;
        for c in it: s.chars()
            invariant
                self.wf(),
                it.seq() == s@,
                self@ == step_str(v0, it.seq().take(it.index() as int)),
                self.surface.info == old(self).surface.info,
                it.index() > 0 ==> caret_drawn(*self),
        {
            proof {
                assert(it.seq().take(it.index() as int + 1).drop_last()
                    =~= it.seq().take(it.index() as int));
                assert(it.seq().take(it.index() as int + 1).last() == c);
            }
            self.write_char(c);
        }
        proof {
            assert(s@.take(s@.len() as int) =~= s@);
        }
    }

    /// Deletes the character before the caret: moves the caret one cell
    /// left (wrapping to the end of the previous row at the left margin)
    /// and shifts the rest of that row left. At the grid origin it does
    /// nothing.
    pub fn backspace(&mut self)
        requires
            old(self).wf(),
        ensures
            final(self).wf(),
            final(self)@ == step_backspace(old(self)@),
            final(self).surface.info == old(self).surface.info,
            (col_at(old(self)@.x) == 0 && row_at(old(self)@.y) == 0)
                ==> *final(self) == *old(self),
            !(col_at(old(self)@.x) == 0 && row_at(old(self)@.y) == 0)
                && (old(self)@.x >= BORDER_PADDING + CHAR_WIDTH
                    || old(self)@.y >= cell_h() + BORDER_PADDING)
                ==> (if row_at(final(self)@.y) < final(self)@.rows {
                        edited_pixels(*old(self), *final(self), row_at(final(self)@.y))
                    } else {
                        moved_pixels(*old(self), *final(self))
                    }),
    {
        let col = self.current_col();
        let row = self.current_row();
        if col == 0 && row == 0 {
            return;
        }
        self.erase_cursor();
        if self.x_pos >= BORDER_PADDING + CHAR_WIDTH {
            self.x_pos = self.x_pos - CHAR_WIDTH;
        } else {
            if self.y_pos >= CHAR_HEIGHT + LINE_SPACING + BORDER_PADDING {
                self.x_pos = self.surface.info.width - (CHAR_WIDTH + LETTER_SPACING);
                self.y_pos = self.y_pos - (CHAR_HEIGHT + LINE_SPACING);
            } else {
                self.draw_cursor();
                return;
            }
        }
        let target_col = self.current_col();
        let target_row = self.current_row();
        if target_row < self.grid.rows && target_col < self.grid.cols {
            self.grid.shift_left_into(target_row, target_col);
            proof {
                let mv = ConsoleView { x: self.x_pos as int, y: self.y_pos as int,
                    visible: false, ..old(self)@ };
                let expect = mv.cells.update(target_row as int,
                    row_remove(mv.cells[target_row as int], target_col as int));
                assert forall|r: int| 0 <= r < self.grid.rows as int
                        implies self.grid.row_view()[r] =~= expect[r] by {}
                assert(self.grid.row_view() =~~= expect);
            }
        }
        self.redraw_line(target_row);
        self.draw_cursor();
        proof {
            assert(self@ =~~= step_backspace(old(self)@));
        }
    }

    /// Moves the caret one cell left, wrapping to the end of the previous
    /// row at the left margin; at the top-left it only erases the caret.
    pub fn cursor_left(&mut self)
        requires
            old(self).wf(),
        ensures
            final(self).wf(),
            final(self)@ == step_cursor_left(old(self)@),
            moved_pixels(*old(self), *final(self)),
    {
        self.erase_cursor();
        if self.x_pos >= BORDER_PADDING + CHAR_WIDTH {
            self.x_pos = self.x_pos - CHAR_WIDTH;
        } else {
            if self.y_pos >= CHAR_HEIGHT + LINE_SPACING + BORDER_PADDING {
                self.x_pos = self.surface.info.width - (CHAR_WIDTH + LETTER_SPACING);
                self.y_pos = self.y_pos - (CHAR_HEIGHT + LINE_SPACING);
            } else {
                self.draw_cursor();
                return;
            }
        }
        self.draw_cursor();
    }

    /// Moves the caret one cell right; off the right edge it behaves as a
    /// newline.
    pub fn cursor_right(&mut self)
        requires
            old(self).wf(),
        ensures
            final(self).wf(),
            final(self)@ == step_cursor_right(old(self)@),
            final(self).surface.info == old(self).surface.info,
            (old(self)@.x + cell_w() + CHAR_WIDTH <= old(self)@.width
                || row_at(old(self)@.y) + 1 < old(self)@.rows)
                ==> moved_pixels(*old(self), *final(self)),
            (old(self)@.x + cell_w() + CHAR_WIDTH > old(self)@.width
                && row_at(old(self)@.y) + 1 >= old(self)@.rows)
                ==> cleared_pixels(final(self).surface),
    {
        self.erase_cursor();
        let limit = self.width() - CHAR_WIDTH;
        if CHAR_WIDTH + LETTER_SPACING <= limit && self.x_pos <= limit - (CHAR_WIDTH + LETTER_SPACING) {
            self.x_pos = self.x_pos + (CHAR_WIDTH + LETTER_SPACING);
        } else {
            self.newline();
            return;
        }
        self.draw_cursor();
    }

    /// Moves the caret one row up, stopping at the top row.
    pub fn cursor_up(&mut self)
        requires
            old(self).wf(),
        ensures
            final(self).wf(),
            final(self)@ == step_cursor_up(old(self)@),
            moved_pixels(*old(self), *final(self)),
    {
        self.erase_cursor();
        if self.y_pos >= CHAR_HEIGHT + LINE_SPACING + BORDER_PADDING {
            self.y_pos = self.y_pos - (CHAR_HEIGHT + LINE_SPACING);
        } else {
            self.draw_cursor();
            return;
        }
        self.draw_cursor();
    }

    /// Moves the caret one row down, stopping at the bottom of the screen.
    pub fn cursor_down(&mut self)
        requires
            old(self).wf(),
        ensures
            final(self).wf(),
            final(self)@ == step_cursor_down(old(self)@),
            moved_pixels(*old(self), *final(self)),
    {
        self.erase_cursor();
        let hlimit = self.height() - CHAR_HEIGHT;
        if CHAR_HEIGHT + LINE_SPACING <= hlimit
            && self.y_pos <= hlimit - (CHAR_HEIGHT + LINE_SPACING) {
            self.y_pos = self.y_pos + (CHAR_HEIGHT + LINE_SPACING);
        } else {
            self.draw_cursor();
            return;
        }
        self.draw_cursor();
    }

    /// Blits an already-rasterized glyph at the caret and advances the
    /// caret one cell right; the shadow grid is not touched.
    pub fn write_rendered_char(&mut self, rendered: &Vec<Vec<u8>>)
        requires
            old(self).wf(),
            rendered@.len() == CHAR_HEIGHT,
            old(self)@.x + cell_w() + CHAR_WIDTH <= old(self)@.width,
        ensures
            final(self).wf(),
            final(self)@ == (ConsoleView { x: old(self)@.x + cell_w(), ..old(self)@ }),
            forall|px: int, py: int| old(self).surface.valid_xy(px, py)
                ==> #[trigger] final(self).surface.pix(px, py) == (
                    if in_rect(px, py, old(self)@.x, old(self)@.y, CHAR_WIDTH as int,
                        CHAR_HEIGHT as int) {
                        encoded(old(self).surface.info.pixel_format,
                            bitmap_pixel(bitmap_rows(*rendered), py - old(self)@.y,
                                px - old(self)@.x),
                            old(self).surface.info.bytes_per_pixel as int)
                    } else {
                        old(self).surface.pix(px, py)
                    }),
    {
        self.surface.blit_glyph(self.x_pos, self.y_pos, rendered);
        self.x_pos = self.x_pos + (CHAR_WIDTH + LETTER_SPACING);
    }

    /// Builds a console over the given framebuffer memory and clears it.
    pub fn new(framebuffer: Vec<u8>, info: FrameBufferInfo) -> (w: FrameBufferWriter)
        requires
            info_wf(info),
            min_dims(info),
            framebuffer.len() == info.stride * info.height * info.bytes_per_pixel,
        ensures
            w.wf(),
            w.surface.info == info,
            w@.width == info.width,
            w@.height == info.height,
            w@.cols == grid_cols(info.width as int, info.height as int),
            w@.rows == grid_rows(info.width as int, info.height as int),
            w@.cells == blank_grid(w@.cols, w@.rows),
            w@.x == BORDER_PADDING,
            w@.y == BORDER_PADDING,
            w@.visible,
            cleared_pixels(w.surface),
    {
        let mut cells: Vec<Option<char>> = Vec::new();
        cells.push(None);
        let mut w = FrameBufferWriter {
            surface: PixelSurface { buf: framebuffer, info },
            grid: TextGrid { cols: 1, rows: 1, cells },
            x_pos: 0,
            y_pos: 0,
            cursor_visible: true,
        };
        w.clear();
        proof {
            assert(w@.cells =~~= blank_grid(w@.cols, w@.rows));
        }
        w
    }
}

/// The grid dimensions computed for a well-formed framebuffer fit in a
/// machine word, because the grid is no larger than the pixel buffer.
pub proof fn lemma_grid_fits(info: FrameBufferInfo, len: int)
    requires
        info_wf(info),
        min_dims(info),
        len == info.stride * info.height * info.bytes_per_pixel,
        len <= usize::MAX,
    ensures
        grid_cols(info.width as int, info.height as int)
            * grid_rows(info.width as int, info.height as int) <= usize::MAX,
{
    let w = info.width as int;
    let h = info.height as int;
    lemma_geometry(w, h);
    let cols = grid_cols(w, h);
    let rows = grid_rows(w, h);
    assert(cols <= cols * cell_w()) by (nonlinear_arith)
        requires 0 <= cols, 1 <= cell_w();
    assert(rows <= rows * cell_h()) by (nonlinear_arith)
        requires 0 <= rows, 1 <= cell_h();
    assert(cols * rows <= w * h) by (nonlinear_arith)
        requires 0 <= cols <= w, 0 <= rows <= h;
    assert(w * h <= len) by (nonlinear_arith)
        requires
            w <= info.stride as int,
            0 <= h,
            1 <= info.bytes_per_pixel as int,
            0 <= w,
            len == info.stride as int * h * info.bytes_per_pixel as int;
}

} // verus!
