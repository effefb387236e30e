//! Bitmap font descriptors and their validation before upload.
use vstd::prelude::*;

verus! {

/// Everything needed to upload a bitmap font. Fonts are ASCII, with glyphs
/// for a contiguous range of character codes within [0, 256).
pub trait BitFont<'a> {
    /// Character cell size, in pixels: (width, height).
    fn cell_size_px(&self) -> (u8, u8);

    /// Spacing between cells, horizontally and vertically, in pixels.
    fn intercell_px(&self) -> (u8, u8);

    /// Lowest code present and one past the highest: [lo, hi).
    fn bounds(&self) -> (i16, i16);

    /// Raw glyph bytes, row-major, `cell width * (hi - lo)` wide and
    /// `cell height` high.
    fn texture(&self) -> &'a [u8];
}

/// A font whose geometry and glyph bytes are fixed in the program.
pub struct EmbeddedFont<'a> {
    pub cell_size: (u8, u8),
    pub intercell: (u8, u8),
    pub bounds: (i16, i16),
    pub texture: &'a [u8],
}

impl<'a> BitFont<'a> for EmbeddedFont<'a> {
    fn cell_size_px(&self) -> (u8, u8) {
        self.cell_size
    }

    fn intercell_px(&self) -> (u8, u8) {
        self.intercell
    }

    fn bounds(&self) -> (i16, i16) {
        self.bounds
    }

    fn texture(&self) -> &'a [u8] {
        self.texture
    }
}

} // verus!

verus! {

/// Why a font descriptor cannot be uploaded.
#[derive(Clone, Copy, Debug, PartialEq, Eq, Structural)]
pub enum FontError {
    /// The code range is not an ordered range within [0, 256].
    InvalidBounds,
    /// The glyph bytes are not `cell width * glyph count * cell height` long.
    BitmapSizeMismatch,
}

/// The code range [lo, hi) is ordered and within [0, 256].
pub open spec fn bounds_ok(bounds: (i16, i16)) -> bool {
    0 <= bounds.0 <= bounds.1 <= 256
}

/// Number of glyph bytes a font of this geometry holds.
pub open spec fn glyph_bytes(cell_size: (u8, u8), bounds: (i16, i16)) -> int {
    cell_size.0 * (bounds.1 - bounds.0) * cell_size.1
}

/// Width in pixels of the glyph atlas: the glyphs side by side.
pub open spec fn atlas_width(cell_size: (u8, u8), bounds: (i16, i16)) -> int {
    cell_size.0 * (bounds.1 - bounds.0)
}

/// Checks a font's geometry against the length of its glyph bytes, and
/// gives the atlas size (width, height) in pixels.
pub fn check_font_geometry(cell_size: (u8, u8), bounds: (i16, i16), texture_len: usize) -> (r:
    Result<(i32, i32), FontError>)
    ensures
        !bounds_ok(bounds) <==> r == Err::<(i32, i32), FontError>(FontError::InvalidBounds),
        bounds_ok(bounds) && texture_len != glyph_bytes(cell_size, bounds) <==> r == Err::<
            (i32, i32),
            FontError,
        >(FontError::BitmapSizeMismatch),
        r is Ok <==> bounds_ok(bounds) && texture_len == glyph_bytes(cell_size, bounds),
        r is Ok ==> r->Ok_0 == (atlas_width(cell_size, bounds) as i32, cell_size.1 as i32),
{
    if bounds.0 < 0 || bounds.1 < bounds.0 || bounds.1 > 256 {
        return Err(FontError::InvalidBounds);
    }
    let count = (bounds.1 - bounds.0) as u64;
    assert(cell_size.0 * count <= 255 * 256 && cell_size.0 * count * cell_size.1 <= 255 * 256
        * 255) by (nonlinear_arith)
        requires
            count <= 256,
            cell_size.0 <= 255,
            cell_size.1 <= 255,
    ;
    let width = cell_size.0 as u64 * count;
    let expected = width * cell_size.1 as u64;
    if texture_len as u64 != expected {
        return Err(FontError::BitmapSizeMismatch);
    }
    Ok((width as i32, cell_size.1 as i32))
}

/// A font's geometry, checked, with the size of its glyph atlas.
#[derive(Clone, Copy, Debug)]
pub struct FontUpload {
    pub cell_size: (u8, u8),
    pub intercell: (u8, u8),
    pub bounds: (i16, i16),
    /// Atlas size in pixels: (width, height).
    pub atlas_size: (i32, i32),
}

impl FontUpload {
    pub open spec fn wf(&self) -> bool {
        &&& bounds_ok(self.bounds)
        &&& self.atlas_size == (
            atlas_width(self.cell_size, self.bounds) as i32,
            self.cell_size.1 as i32,
        )
    }
}

/// Reads a font descriptor once and checks it: its glyph bytes must be
/// `cell width * glyph count * cell height` long, for an ordered code range
/// within [0, 256].
pub fn prepare_font<'a, T: BitFont<'a>>(font: &T) -> (r: Result<FontUpload, FontError>)
    ensures
        r is Ok ==> r->Ok_0.wf(),
{
    let cell_size = font.cell_size_px();
    let bounds = font.bounds();
    let texture = font.texture();
    match check_font_geometry(cell_size, bounds, texture.len()) {
        Ok(atlas_size) => Ok(FontUpload { cell_size, intercell: font.intercell_px(), bounds, atlas_size }),
        Err(e) => Err(e),
    }
}

impl<'a> EmbeddedFont<'a> {
    /// Checks this font's geometry against its glyph bytes.
    pub fn upload(&self) -> (r: Result<FontUpload, FontError>)
        ensures
            r is Ok <==> bounds_ok(self.bounds) && self.texture@.len() == glyph_bytes(
                self.cell_size,
                self.bounds,
            ),
            !bounds_ok(self.bounds) ==> r == Err::<FontUpload, FontError>(FontError::InvalidBounds),
            bounds_ok(self.bounds) && self.texture@.len() != glyph_bytes(self.cell_size, self.bounds)
                ==> r == Err::<FontUpload, FontError>(FontError::BitmapSizeMismatch),
            r is Ok ==> r->Ok_0.wf() && r->Ok_0.cell_size == self.cell_size && r->Ok_0.intercell
                == self.intercell && r->Ok_0.bounds == self.bounds,
    {
        match check_font_geometry(self.cell_size, self.bounds, self.texture.len()) {
            Ok(atlas_size) => Ok(
                FontUpload {
                    cell_size: self.cell_size,
                    intercell: self.intercell,
                    bounds: self.bounds,
                    atlas_size,
                },
            ),
            Err(e) => Err(e),
        }
    }
}

/// Geometry of the Osborne I character ROM: 8x10 cells, codes [0, 128).
pub fn get_osborne_font<'a>(texture: &'a [u8]) -> (r: EmbeddedFont<'a>)
    ensures
        r.cell_size == (8u8, 10u8),
        r.intercell == (0u8, 0u8),
        r.bounds == (0i16, 128i16),
        r.texture@ == texture@,
{
    EmbeddedFont { cell_size: (8, 10), intercell: (0, 0), bounds: (0, 128), texture }
}

/// Geometry of the Waters W600E character ROM: 8x16 cells, codes [32, 137).
pub fn get_waters_w600e_font<'a>(texture: &'a [u8]) -> (r: EmbeddedFont<'a>)
    ensures
        r.cell_size == (8u8, 16u8),
        r.intercell == (0u8, 0u8),
        r.bounds == (32i16, 137i16),
        r.texture@ == texture@,
{
    EmbeddedFont { cell_size: (8, 16), intercell: (0, 0), bounds: (32, 137), texture }
}

/// Geometry of the Kaypro 2 character ROM: 8x16 cells, codes [0, 256).
pub fn get_kaypro_2_font<'a>(texture: &'a [u8]) -> (r: EmbeddedFont<'a>)
    ensures
        r.cell_size == (8u8, 16u8),
        r.intercell == (0u8, 0u8),
        r.bounds == (0i16, 256i16),
        r.texture@ == texture@,
{
    EmbeddedFont { cell_size: (8, 16), intercell: (0, 0), bounds: (0, 256), texture }
}

/// A font whose glyph atlas has been uploaded as a texture.
#[derive(Clone, Copy, Debug)]
pub struct LoadedFont {
    pub cell_size: (u8, u8),
    pub intercell: (u8, u8),
    pub bounds: (i16, i16),
    /// The texture that holds the glyph atlas.
    pub gl_texture: u32,
}

impl LoadedFont {
    /// The font described by `upload`, its atlas held in texture `gl_texture`.
    pub fn new(upload: &FontUpload, gl_texture: u32) -> (r: LoadedFont)
        ensures
            r.cell_size == upload.cell_size,
            r.intercell == upload.intercell,
            r.bounds == upload.bounds,
            r.gl_texture == gl_texture,
    {
        LoadedFont {
            cell_size: upload.cell_size,
            intercell: upload.intercell,
            bounds: upload.bounds,
            gl_texture,
        }
    }
}

} // verus!
