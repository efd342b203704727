pub mod gl_enums;
pub mod shader;
pub mod buffer;
pub mod batch;
pub mod renderer_core;
pub mod laws;
pub mod texture;
pub mod sprite_sheet;
pub mod font;
pub mod vertex_layout;
pub mod window;
pub mod text_area;
pub mod builtin;
pub mod layer_stack;
pub mod material;
pub mod shader_source;

use vstd::prelude::*;

verus! {

/// The name OpenGL gives to an object (texture, buffer, program, ...).
pub type RenderID = u32;

} // verus!

verus! {

/// What went wrong in a renderer operation.
#[derive(Clone, Copy, Debug, PartialEq, Eq, Structural)]
pub enum RenderErrorKind {
    /// No batch has the id that a vertex location names.
    InvalidBatch(u64),
    /// Replacement vertices of another length than the ones they replace.
    UnexpectedVerticesLength { got: usize, expected: usize },
    /// A texture that the batch of the vertices does not hold.
    MissingTextureSlot(RenderID),
}

/// An error of the renderer.
#[derive(Clone, Copy, Debug, PartialEq, Eq, Structural)]
pub struct RenderError(pub RenderErrorKind);

} // verus!
