//! Retro bitmap-font terminal: a character grid with cursor, scrolling and
//! a two-phase phosphor-decay render plan for a graphics backend.
pub mod font;
pub mod glutil;
pub mod grid;
pub mod laws;
pub mod render;
pub mod terminal;

pub use font::{
    check_font_geometry, get_kaypro_2_font, get_osborne_font, get_waters_w600e_font, prepare_font,
    BitFont, EmbeddedFont, FontError, FontUpload, LoadedFont,
};
pub use glutil::Framebuffer;
pub use render::RenderPlan;
pub use terminal::{GridError, Phase, Terminal, TerminalGLState};

