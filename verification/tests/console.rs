use framebuffer_console::pixel::{FrameBufferInfo, PixelFormat, PixelSurface};
use framebuffer_console::writer::FrameBufferWriter;
use framebuffer_console::BORDER_PADDING;

// The scenario geometry: a 100 x 50 framebuffer with 8 x 16 glyph cells and
// 5 px border padding gives an 11 x 2 text grid.
fn make(width: usize, height: usize, stride: usize, bpp: usize, fmt: PixelFormat) -> FrameBufferWriter {
    let info = FrameBufferInfo {
        width,
        height,
        stride,
        bytes_per_pixel: bpp,
        pixel_format: fmt,
    };
    let buf = vec![0u8; stride * height * bpp];
    FrameBufferWriter::new(buf, info)
}

fn std_writer() -> FrameBufferWriter {
    make(100, 50, 100, 4, PixelFormat::Rgb)
}

fn row_chars(w: &FrameBufferWriter, row: usize) -> Vec<Option<char>> {
    let cols = w.grid.cols;
    (0..cols).map(|c| w.grid.cells[row * cols + c]).collect()
}

fn pixel_bytes(surface: &PixelSurface, x: usize, y: usize) -> Vec<u8> {
    let bpp = surface.info.bytes_per_pixel;
    let off = (y * surface.info.stride + x) * bpp;
    surface.buf[off..off + bpp].to_vec()
}

#[test]
fn grid_dimensions_match_scenario() {
    let w = std_writer();
    assert_eq!(w.grid.cols, 11);
    assert_eq!(w.grid.rows, 2);
    assert_eq!(w.grid.cells.len(), 22);
}

#[test]
fn write_str_two_chars() {
    let mut w = std_writer();
    w.write_str("AB");
    let row0 = row_chars(&w, 0);
    assert_eq!(row0[0], Some('A'));
    assert_eq!(row0[1], Some('B'));
    for c in 2..11 {
        assert_eq!(row0[c], None);
    }
    assert_eq!(w.x_pos, 5 + 2 * 8);
    assert_eq!(w.y_pos, 5);
}

#[test]
fn backspace_removes_last_char() {
    let mut w = std_writer();
    w.write_str("AB");
    w.backspace();
    let row0 = row_chars(&w, 0);
    assert_eq!(row0[0], Some('A'));
    for c in 1..11 {
        assert_eq!(row0[c], None);
    }
    assert_eq!(w.x_pos, 13);
    assert_eq!(w.y_pos, 5);
}

#[test]
fn twelfth_char_lands_on_second_row() {
    let mut w = std_writer();
    let line = "ABCDEFGHIJK"; // exactly one full row of 11 columns
    w.write_str(line);
    let row0 = row_chars(&w, 0);
    for (i, c) in line.chars().enumerate() {
        assert_eq!(row0[i], Some(c));
    }
    // the insert in the last column wrapped the caret to row 1, col 0
    assert_eq!(w.x_pos, 5);
    assert_eq!(w.y_pos, 23);
    w.write_char('L');
    let row1 = row_chars(&w, 1);
    assert_eq!(row1[0], Some('L'));
    assert_eq!(row_chars(&w, 0)[0], Some('A'));
}

#[test]
fn clear_empties_grid_and_pixels() {
    let mut w = std_writer();
    w.write_str("hello\nworld");
    w.clear();
    assert_eq!(w.grid.cells.len(), 22);
    for i in 0..22 {
        assert_eq!(w.grid.cells[i], None);
    }
    assert_eq!(w.x_pos, BORDER_PADDING);
    assert_eq!(w.y_pos, BORDER_PADDING);
    assert!(w.cursor_visible);
    // every pixel is zero except the freshly drawn caret cell
    for y in 0..50 {
        for x in 0..100 {
            let b = pixel_bytes(&w.surface, x, y);
            let in_caret = (5..13).contains(&x) && (5..21).contains(&y);
            if in_caret {
                assert_eq!(b, vec![200, 200, 100, 0]);
            } else {
                assert_eq!(b, vec![0, 0, 0, 0]);
            }
        }
    }
}

#[test]
fn toggle_twice_restores_pixels() {
    let mut w = std_writer();
    w.write_str("AB");
    let before = w.surface.buf.clone();
    let visible_before = w.cursor_visible;
    w.toggle_cursor();
    w.toggle_cursor();
    assert_eq!(w.surface.buf, before);
    assert_eq!(w.cursor_visible, visible_before);
}

#[test]
fn round_trip_one_row() {
    let mut w = std_writer();
    let text = "hello";
    w.write_str(text);
    let row0 = row_chars(&w, 0);
    let read: String = row0.iter().take(text.len()).map(|c| c.unwrap()).collect();
    assert_eq!(read, text);
}

#[test]
fn insert_then_backspace_restores_row() {
    let mut w = std_writer();
    w.write_str("abc");
    w.cursor_left(); // caret over 'c'
    w.write_char('Z'); // row becomes a b Z c
    assert_eq!(row_chars(&w, 0)[2], Some('Z'));
    assert_eq!(row_chars(&w, 0)[3], Some('c'));
    w.backspace(); // deletes the 'Z' again
    let row0 = row_chars(&w, 0);
    assert_eq!(row0[0], Some('a'));
    assert_eq!(row0[1], Some('b'));
    assert_eq!(row0[2], Some('c'));
    for c in 3..11 {
        assert_eq!(row0[c], None);
    }
}

#[test]
fn caret_position_indexes_grid_slot() {
    let mut w = std_writer();
    w.set_y_pos(23); // row 1
    w.set_x_pos(77); // col 9
    w.write_char('Q');
    assert_eq!(w.grid.cells[1 * 11 + 9], Some('Q'));
    assert_eq!(w.x_pos, 85);
}

#[test]
fn newline_past_last_row_clears() {
    let mut w = std_writer();
    w.write_str("x\n"); // caret to row 1
    assert_eq!(w.y_pos, 23);
    w.write_char('\n'); // past the last row: full clear, no scrolling
    for i in 0..22 {
        assert_eq!(w.grid.cells[i], None);
    }
    assert_eq!(w.x_pos, BORDER_PADDING);
    assert_eq!(w.y_pos, BORDER_PADDING);
    assert!(w.cursor_visible);
}

#[test]
fn tab_moves_caret_only() {
    let mut w = std_writer();
    w.write_char('\t');
    assert_eq!(w.x_pos, 35);
    for i in 0..22 {
        assert_eq!(w.grid.cells[i], None);
    }
    // a tab near the right edge clamps so the caret cell stays on screen
    w.set_x_pos(90);
    w.write_char('\t');
    assert_eq!(w.x_pos, 92);
}

#[test]
fn carriage_return_resets_column_only() {
    let mut w = std_writer();
    w.write_str("AB\r");
    assert_eq!(w.x_pos, 5);
    assert_eq!(w.y_pos, 5);
    assert_eq!(row_chars(&w, 0)[0], Some('A'));
    assert_eq!(row_chars(&w, 0)[1], Some('B'));
}

#[test]
fn cursor_moves_clamp_at_edges() {
    let mut w = std_writer();
    w.cursor_right();
    assert_eq!(w.x_pos, 13);
    w.cursor_down();
    assert_eq!(w.y_pos, 23);
    w.cursor_up();
    assert_eq!(w.y_pos, 5);
    w.cursor_up(); // already at the top: y unchanged
    assert_eq!(w.y_pos, 5);
    w.cursor_left();
    assert_eq!(w.x_pos, 5);
    w.cursor_left(); // at the origin: nothing moves, the caret is redrawn
    assert_eq!(w.x_pos, 5);
    assert_eq!(w.y_pos, 5);
    assert!(w.cursor_visible);
}

#[test]
fn cursor_left_wraps_to_previous_row_end() {
    let mut w = std_writer();
    w.write_char('\n'); // caret at (5, 23)
    w.cursor_left();
    assert_eq!(w.x_pos, 92);
    assert_eq!(w.y_pos, 5);
}

#[test]
fn cursor_right_past_last_column_wraps() {
    let mut w = std_writer();
    w.set_x_pos(85); // last full cell of the row
    w.cursor_right();
    assert_eq!(w.x_pos, 5);
    assert_eq!(w.y_pos, 23);
}

#[test]
fn backspace_at_origin_is_a_no_op() {
    let mut w = std_writer();
    w.backspace();
    assert_eq!(w.x_pos, 5);
    assert_eq!(w.y_pos, 5);
    assert!(w.cursor_visible);
}

#[test]
fn backspace_wraps_to_previous_row() {
    let mut w = std_writer();
    w.write_str("ABCDEFGHIJK"); // fills row 0, caret at row 1 col 0
    w.backspace(); // deletes the 'K' at the end of row 0
    let row0 = row_chars(&w, 0);
    assert_eq!(row0[9], Some('J'));
    assert_eq!(row0[10], None);
    assert_eq!(w.x_pos, 92);
    assert_eq!(w.y_pos, 5);
}

#[test]
fn bgr_encoding_halves_blue_channel() {
    let mut w = make(100, 50, 120, 3, PixelFormat::Bgr);
    w.clear();
    // the caret cell is drawn at intensity 200: blue/2, green, red
    assert_eq!(pixel_bytes(&w.surface, 6, 6), vec![100, 200, 200]);
    assert_eq!(pixel_bytes(&w.surface, 50, 30), vec![0, 0, 0]);
}

#[test]
fn grayscale_encoding_thresholds_intensity() {
    let mut w = make(100, 50, 100, 1, PixelFormat::U8);
    // the caret intensity of 200 is not above the threshold, so the caret
    // is invisible in this format
    assert_eq!(pixel_bytes(&w.surface, 6, 6), vec![0]);
    // a glyph contains full-intensity bytes, which map to 0x0f
    w.write_char('A');
    let any_bright = w.surface.buf.iter().any(|&b| b == 0x0f);
    assert!(any_bright);
}

#[test]
fn write_rendered_char_blits_and_advances() {
    let mut w = std_writer();
    let bitmap: Vec<Vec<u8>> = (0..16).map(|_| vec![7u8; 9]).collect();
    w.write_rendered_char(&bitmap);
    assert_eq!(w.x_pos, 13);
    // every pixel of the 8-wide cell shows the bitmap byte, encoded as Rgb
    assert_eq!(pixel_bytes(&w.surface, 5, 5), vec![7, 7, 3, 0]);
    assert_eq!(pixel_bytes(&w.surface, 12, 20), vec![7, 7, 3, 0]);
    // the column beyond the cell width was clipped
    assert_eq!(pixel_bytes(&w.surface, 13, 5), vec![0, 0, 0, 0]);
}

#[test]
fn stride_padding_stays_blank() {
    let mut w = make(100, 50, 120, 4, PixelFormat::Rgb);
    w.write_str("ABCDEFGHIJK");
    for y in 0..50 {
        for x in 100..120 {
            assert_eq!(pixel_bytes(&w.surface, x, y), vec![0, 0, 0, 0]);
        }
    }
}
