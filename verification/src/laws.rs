//! Laws of the console, proved once and for all over the abstract view:
//! round trip of a written row, insert/backspace inversion, coordinate
//! consistency, caret toggle idempotence, and clear-instead-of-scroll.

use vstd::prelude::*;
use vstd::arithmetic::div_mod::lemma_multiply_divide_lt;
use crate::{cell_h, cell_w, cell_x, cell_y, col_at, row_at, BORDER_PADDING, CHAR_HEIGHT,
    CHAR_WIDTH, CURSOR_INTENSITY};
use crate::pixel::{encoded, in_rect};
use crate::writer::{caret_coherent, cell_glyph_pixel, inv, is_printable, lemma_band_col_lt,
    lemma_caret_in_grid, lemma_cell_coords, lemma_cell_in_screen, lemma_geometry, step_backspace,
    step_char, step_clear, step_str, toggle_rel, ConsoleView, FrameBufferWriter};

verus! {

/// Coordinate consistency: any caret pixel position inside the active
/// drawing area derives a (row, col) pair that indexes a valid grid slot.
pub proof fn lemma_coord_consistency(cols: int, rows: int, x: int, y: int)
    requires
        0 <= cols,
        0 <= rows,
        BORDER_PADDING <= x < BORDER_PADDING + cols * cell_w(),
        BORDER_PADDING <= y < BORDER_PADDING + rows * cell_h(),
    ensures
        0 <= col_at(x) < cols,
        0 <= row_at(y) < rows,
{
    lemma_band_col_lt(x, cols);
    assert(rows * cell_h() == cell_h() * rows) by (nonlinear_arith);
    lemma_multiply_divide_lt(y - BORDER_PADDING, cell_h(), rows);
}

/// Clear completeness: after a clear, every grid slot is empty and the
/// caret sits at the top-left drawable origin.
pub proof fn lemma_clear_completeness(v: ConsoleView)
    requires
        inv(v),
    ensures
        step_clear(v).x == BORDER_PADDING,
        step_clear(v).y == BORDER_PADDING,
        step_clear(v).visible,
        step_clear(v).cells.len() == step_clear(v).rows,
        forall|r: int, c: int|
            0 <= r < step_clear(v).rows && 0 <= c < step_clear(v).cols
                ==> step_clear(v).cells[r][c] is None,
{
}

/// No silent scroll: a newline on the last grid row produces exactly the
/// cleared console, with every prior row gone; nothing is shifted.
pub proof fn lemma_overflow_clears(v: ConsoleView)
    requires
        inv(v),
        row_at(v.y) + 1 >= v.rows,
    ensures
        step_char(v, '\n') == step_clear(v),
{
    assert(step_char(v, '\n') =~~= step_clear(v));
}

/// Insert/backspace inversion: writing a printable character at an aligned
/// caret cell and then backspacing restores the grid and the caret exactly,
/// provided the row's last slot was empty (an insert drops it) and the
/// caret was not in the last column (an insert there wraps the caret away).
pub proof fn lemma_insert_backspace(v: ConsoleView, c: char)
    requires
        inv(v),
        is_printable(c),
        v.x == cell_x(col_at(v.x)),
        v.y == cell_y(row_at(v.y)),
        row_at(v.y) < v.rows,
        col_at(v.x) + 1 < v.cols,
        v.cells[row_at(v.y)][v.cols - 1] is None,
    ensures
        step_backspace(step_char(v, c)) == (ConsoleView { visible: true, ..v }),
{
    let col = col_at(v.x);
    let row = row_at(v.y);
    lemma_caret_in_grid(v.width, v.height, v.x, v.y);
    let w = step_char(v, c);
    lemma_cell_coords(col + 1, row, 0, 0);
    lemma_cell_coords(col, row, 0, 0);
    lemma_cell_in_screen(v.width, v.height, col + 1, row);
    assert(w.x == cell_x(col + 1));
    assert(col_at(w.x) == col + 1);
    assert(w.x >= BORDER_PADDING + CHAR_WIDTH) by {
        assert(cell_w() <= (col + 1) * cell_w()) by (nonlinear_arith)
            requires 0 <= col;
    };
    assert(w.x - CHAR_WIDTH == cell_x(col));
    let u = step_backspace(w);
    assert(u.cells[row] =~= v.cells[row]);
    assert(u.cells =~~= v.cells);
    assert(u =~~= (ConsoleView { visible: true, ..v }));
}

/// Helper for the round-trip law: writing `cs` from the origin of an empty
/// first row fills that row's first `cs.len()` slots in order, leaves the
/// rest of the row empty, and tracks the caret.
pub proof fn lemma_write_row(v: ConsoleView, cs: Seq<char>)
    requires
        inv(v),
        v.x == BORDER_PADDING,
        v.y == BORDER_PADDING,
        forall|i: int| 0 <= i < cs.len() ==> is_printable(#[trigger] cs[i]),
        cs.len() <= v.cols,
        cs.len() == v.cols ==> v.rows >= 2,
        forall|c2: int| 0 <= c2 < v.cols ==> v.cells[0][c2] is None,
    ensures
        inv(step_str(v, cs)),
        step_str(v, cs).cols == v.cols,
        step_str(v, cs).rows == v.rows,
        step_str(v, cs).width == v.width,
        step_str(v, cs).height == v.height,
        forall|i: int| 0 <= i < cs.len() ==> step_str(v, cs).cells[0][i] == Some(cs[i]),
        forall|i: int| cs.len() <= i < v.cols ==> step_str(v, cs).cells[0][i] is None,
        cs.len() < v.cols ==> step_str(v, cs).x == cell_x(cs.len() as int)
            && step_str(v, cs).y == BORDER_PADDING,
        cs.len() == v.cols ==> step_str(v, cs).x == BORDER_PADDING
            && step_str(v, cs).y == cell_y(1),
    decreases cs.len(),
{
    lemma_geometry(v.width, v.height);
    if cs.len() == 0 {
        assert(col_at(BORDER_PADDING as int) == 0);
        assert(cell_x(0) == BORDER_PADDING) by {
            assert(0 * cell_w() == 0) by (nonlinear_arith);
        };
    } else {
        let pre = cs.drop_last();
        lemma_write_row(v, pre);
        let w = step_str(v, pre);
        let k = pre.len() as int;
        let ch = cs.last();
        assert(step_str(v, cs) == step_char(w, ch));
        lemma_cell_coords(k, 0, 0, 0);
        assert(col_at(w.x) == k);
        assert(row_at(w.y) == 0) by {
            assert(cell_y(0) == BORDER_PADDING) by {
                assert(0 * cell_h() == 0) by (nonlinear_arith);
            };
            lemma_cell_coords(0, 0, 0, 0);
        };
        lemma_cell_in_screen(v.width, v.height, k, 0);
        let u = step_char(w, ch);
        if k + 1 < v.cols {
            lemma_cell_in_screen(v.width, v.height, k + 1, 0);
        }
        assert(forall|i: int| 0 <= i < cs.len() ==> u.cells[0][i] == Some(cs[i]));
    }
}

/// Round trip: any printable character sequence that fits in one row,
/// written from the origin of a cleared console, is reproduced exactly by
/// reading the first grid row left to right.
pub proof fn lemma_round_trip(v: ConsoleView, cs: Seq<char>)
    requires
        inv(v),
        v.x == BORDER_PADDING,
        v.y == BORDER_PADDING,
        forall|i: int| 0 <= i < cs.len() ==> is_printable(#[trigger] cs[i]),
        cs.len() <= v.cols,
        cs.len() == v.cols ==> v.rows >= 2,
        forall|c2: int| 0 <= c2 < v.cols ==> v.cells[0][c2] is None,
    ensures
        forall|i: int| 0 <= i < cs.len() ==> step_str(v, cs).cells[0][i] == Some(cs[i]),
{
    lemma_write_row(v, cs);
}

/// A freshly cleared console satisfies the toggle law's premise: the caret
/// sits exactly on cell (0, 0), drawn, and every pixel of that cell shows
/// the caret fill.
pub proof fn lemma_cleared_is_coherent(w: FrameBufferWriter)
    requires
        w.wf(),
        w@.x == BORDER_PADDING,
        w@.y == BORDER_PADDING,
        w@.visible,
        crate::writer::cleared_pixels(w.surface),
    ensures
        caret_coherent(w),
{
    lemma_geometry(w@.width, w@.height);
    assert(cell_x(0) == BORDER_PADDING) by {
        assert(0 * cell_w() == 0) by (nonlinear_arith);
    };
    assert(cell_y(0) == BORDER_PADDING) by {
        assert(0 * cell_h() == 0) by (nonlinear_arith);
    };
}

/// Any operation that ends with the caret drawn on a grid cell puts the
/// console back into the toggle law's premise.
pub proof fn lemma_drawn_is_coherent(w: FrameBufferWriter)
    requires
        w.wf(),
        w@.visible,
        w@.x == cell_x(col_at(w@.x)),
        w@.y == cell_y(row_at(w@.y)),
        col_at(w@.x) < w@.cols,
        row_at(w@.y) < w@.rows,
        crate::writer::caret_drawn(w),
    ensures
        caret_coherent(w),
{
    lemma_caret_in_grid(w@.width, w@.height, w@.x, w@.y);
}

/// One caret toggle preserves coherence, so the toggle law holds along any
/// chain of blink ticks, not only for the first pair.
pub proof fn lemma_toggle_preserves_coherence(
    pre: FrameBufferWriter,
    post: FrameBufferWriter,
)
    requires
        pre.wf(),
        caret_coherent(pre),
        toggle_rel(pre, post),
    ensures
        caret_coherent(post),
{
    let v = pre@;
    assert forall|px: int, py: int|
        post.surface.valid_xy(px, py)
            && in_rect(px, py, post@.x, post@.y, CHAR_WIDTH as int, CHAR_HEIGHT as int)
        implies #[trigger] post.surface.pix(px, py) == (
            if post@.visible {
                encoded(post.surface.info.pixel_format, CURSOR_INTENSITY,
                    post.surface.info.bytes_per_pixel as int)
            } else {
                encoded(post.surface.info.pixel_format,
                    cell_glyph_pixel(post@.cells[row_at(post@.y)][col_at(post@.x)],
                        py - post@.y, px - post@.x),
                    post.surface.info.bytes_per_pixel as int)
            }) by {
        if v.visible {
            assert(post.surface.pix(px, py) == crate::writer::erased_pix(pre, px, py));
        }
    }
}

/// Caret toggle idempotence: two caret toggles with no grid mutation in
/// between leave every pixel of the framebuffer exactly as it was, and the
/// console state with it, provided the caret sits on a grid cell whose
/// pixels agree with the visibility flag.
pub proof fn lemma_toggle_toggle(
    w0: FrameBufferWriter,
    w1: FrameBufferWriter,
    w2: FrameBufferWriter,
)
    requires
        w0.wf(),
        caret_coherent(w0),
        toggle_rel(w0, w1),
        toggle_rel(w1, w2),
    ensures
        w2@ == w0@,
        forall|px: int, py: int| w0.surface.valid_xy(px, py)
            ==> #[trigger] w2.surface.pix(px, py) == w0.surface.pix(px, py),
{
    let v = w0@;
    let col = col_at(v.x);
    let row = row_at(v.y);
    assert(w2@ =~~= w0@);
    assert forall|px: int, py: int| w0.surface.valid_xy(px, py)
        implies #[trigger] w2.surface.pix(px, py) == w0.surface.pix(px, py) by {
        if v.visible {
            assert(w1.surface.pix(px, py) == crate::writer::erased_pix(w0, px, py));
            if in_rect(px, py, v.x, v.y, CHAR_WIDTH as int, CHAR_HEIGHT as int) {
                assert(w2.surface.pix(px, py)
                    == encoded(w0.surface.info.pixel_format, CURSOR_INTENSITY,
                        w0.surface.info.bytes_per_pixel as int));
            }
        } else {
            if in_rect(px, py, v.x, v.y, CHAR_WIDTH as int, CHAR_HEIGHT as int) {
                assert(w2.surface.pix(px, py)
                    == encoded(w0.surface.info.pixel_format,
                        cell_glyph_pixel(v.cells[row][col], py - v.y, px - v.x),
                        w0.surface.info.bytes_per_pixel as int));
            }
        }
    }
}

} // verus!
