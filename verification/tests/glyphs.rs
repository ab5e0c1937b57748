use framebuffer_console::glyph::get_char_raster;
use framebuffer_console::CHAR_HEIGHT;

#[test]
fn raster_has_sixteen_rows() {
    let r = get_char_raster('A');
    assert_eq!(r.len(), CHAR_HEIGHT);
}

#[test]
fn raster_of_a_letter_has_ink() {
    let r = get_char_raster('A');
    let ink: usize = r.iter().map(|row| row.iter().filter(|&&b| b != 0).count()).sum();
    assert!(ink > 0);
}

#[test]
fn raster_of_space_is_blank() {
    let r = get_char_raster(' ');
    for row in &r {
        for &b in row {
            assert_eq!(b, 0);
        }
    }
}

#[test]
fn rasters_differ_between_letters() {
    assert_ne!(get_char_raster('A'), get_char_raster('B'));
}

#[test]
fn unknown_char_falls_back() {
    // U+263A is outside the basic-latin range the font carries, so its
    // raster is the fallback character's raster.
    assert_eq!(get_char_raster('\u{263a}'), get_char_raster('\u{fffd}'));
}
