//! What one render call draws: the three passes and the objects each one
//! reads and writes, chosen by the terminal's phase.
use vstd::prelude::*;

use crate::glutil::Framebuffer;
use crate::terminal::Terminal;

verus! {

/// The backend objects and values for one frame.
///
/// Pass one draws the grid's bytes (uploaded into `data_texture`, of
/// `data_dim` cells) with the glyphs of `glyph_texture` into `beam_target`.
/// Pass two composites `decay_source`, the previous frame, with the new beam
/// into `decay_target`. Pass three copies `decay_target` to the visible
/// surface, `present_dim` pixels in size.
#[derive(Clone, Copy, Debug)]
pub struct RenderPlan {
    pub beam_target: Framebuffer,
    pub beam_vao: u32,
    pub glyph_texture: u32,
    pub data_texture: u32,
    pub data_dim: (i32, i32),
    /// Height of a character cell in pixels; a scanline covers a fraction
    /// of it.
    pub cell_height_px: u8,
    /// Number of glyphs in the font.
    pub font_char_count: i32,
    /// Code of the font's first glyph.
    pub font_first_char: i32,
    pub decay_source: Framebuffer,
    pub decay_target: Framebuffer,
    pub crt_vao: u32,
    pub present_dim: (i32, i32),
}

impl Terminal {
    /// The plan that `render` returns for this terminal.
    pub open spec fn plan(&self) -> RenderPlan {
        RenderPlan {
            beam_target: self.gl.beam_fb@[0],
            beam_vao: self.gl.beam_vao,
            glyph_texture: self.font.gl_texture,
            data_texture: self.gl.data_texture,
            data_dim: self.term_dim,
            cell_height_px: self.font.cell_size.1,
            font_char_count: (self.font.bounds.1 - self.font.bounds.0) as i32,
            font_first_char: self.font.bounds.0 as i32,
            decay_source: self.gl.crt_fb@[self.gl.crt_phase.index()],
            decay_target: self.gl.crt_fb@[self.gl.crt_phase.other().index()],
            crt_vao: self.gl.crt_vao,
            present_dim: self.render_dim,
        }
    }

    /// Lays out the three passes of a frame. The previous frame is read
    /// from the framebuffer that the phase selects and the new one is
    /// written into the other; rendering never changes the phase.
    pub fn render(&self) -> (r: RenderPlan)
        ensures
            r == self.plan(),
    {
        let ph1 = self.gl.crt_phase.slot();
        let ph2 = self.gl.crt_phase.flipped().slot();
        RenderPlan {
            beam_target: self.gl.beam_fb[0],
            beam_vao: self.gl.beam_vao,
            glyph_texture: self.font.gl_texture,
            data_texture: self.gl.data_texture,
            data_dim: self.term_dim,
            cell_height_px: self.font.cell_size.1,
            font_char_count: self.font.bounds.1 as i32 - self.font.bounds.0 as i32,
            font_first_char: self.font.bounds.0 as i32,
            decay_source: self.gl.crt_fb[ph1],
            decay_target: self.gl.crt_fb[ph2],
            crt_vao: self.gl.crt_vao,
            present_dim: self.render_dim,
        }
    }
}

} // verus!
