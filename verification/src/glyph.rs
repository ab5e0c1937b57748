//! Glyph rasterization: one character becomes a bitmap of intensity bytes.

use vstd::prelude::*;
use crate::CHAR_HEIGHT;

verus! {

/// The rasterized bitmap of one character: the rows of intensity bytes
/// that the font supplies for it (or for the fallback character when the
/// font lacks it), at raster height 16 and regular weight.
pub uninterp spec fn glyph_of(c: char) -> Seq<Seq<u8>>;

/// The rows of a bitmap held as vectors.
pub open spec fn bitmap_rows(v: Vec<Vec<u8>>) -> Seq<Seq<u8>> {
    v@.map_values(|r: Vec<u8>| r@)
}

/// Returns the raster of the given char, or the raster of the fallback
/// character when the font does not know the char.
///
/// Relies on noto_sans_mono_bitmap::get_raster: the bitmap is a pure
/// function of the character, and every raster at height 16 has exactly
/// 16 rows; the fallback character is part of the embedded font, so the
/// inner lookup cannot fail.
#[verifier::external_body]
pub fn get_char_raster(c: char) -> (r: Vec<Vec<u8>>)
    ensures
        bitmap_rows(r) == glyph_of(c),
        r@.len() == CHAR_HEIGHT,
{
    let rast = noto_sans_mono_bitmap::get_raster(
        c,
        noto_sans_mono_bitmap::FontWeight::Regular,
        noto_sans_mono_bitmap::RasterHeight::Size16,
    )
    .unwrap_or_else(|| {
        noto_sans_mono_bitmap::get_raster(
            '\u{fffd}',
            noto_sans_mono_bitmap::FontWeight::Regular,
            noto_sans_mono_bitmap::RasterHeight::Size16,
        )
        .expect("font asset unavailable: no raster for the fallback char")
    });
    rast.raster().iter().map(|row| row.to_vec()).collect()
}

} // verus!
