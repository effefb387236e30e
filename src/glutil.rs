//! Handles of graphics-backend objects, held as plain values.
use vstd::prelude::*;

verus! {

/// An offscreen framebuffer object and the texture attached to it.
#[derive(Clone, Copy, Debug, PartialEq, Eq, Structural)]
pub struct Framebuffer {
    pub fbo: u32,
    pub txo: u32,
}

impl Framebuffer {
    /// The texture that holds what was drawn into this framebuffer.
    pub fn texture_obj(&self) -> (r: u32)
        ensures
            r == self.txo,
    {
        self.txo
    }
}

} // verus!
