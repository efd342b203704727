//! Materials: a shader program together with the layout of the vertices
//! it draws.

use vstd::prelude::*;
use crate::renderer::RenderID;
use crate::renderer::shader::{Program, UniformStr};
use crate::renderer::buffer::{BufferLayout, element_types, layout_wf};
use crate::renderer::batch::VertexData;
use crate::renderer::vertex_layout::{BufferLayoutBuilder, Vertex, Color, TexCoord, TextureID, Layout};

verus! {

/// How vertices of some kind are drawn.
pub trait Material {
    spec fn spec_shader(&self) -> Program;

    /// The data types of the attributes of one vertex.
    spec fn spec_vertex_types() -> Seq<crate::renderer::shader::ShaderDataType>;

    fn shader(&self) -> (r: &Program)
        ensures
            *r == self.spec_shader(),
    ;

    /// The buffer layout of one vertex.
    fn layout() -> (r: BufferLayout)
        ensures
            r.wf(),
            element_types(r@.0) == Self::spec_vertex_types(),
    ;
}

/// Vertices of one color each.
#[derive(Clone, Copy, Debug)]
pub struct FlatColor {
    shader: Program,
}

impl FlatColor {
    pub fn with_shader(shader: Program) -> (r: Self)
        ensures
            r.spec_shader() == shader,
    {
        FlatColor { shader }
    }

    /// The uniform that tints the whole material.
    pub fn color_uniform() -> (r: UniformStr)
        ensures
            r.0@ == "u_Color"@,
    {
        UniformStr("u_Color")
    }

    /// Vertices of this material sample no texture.
    pub fn texture_id() -> (r: Option<RenderID>)
        ensures
            r is None,
    {
        None
    }
}

impl Material for FlatColor {
    closed spec fn spec_shader(&self) -> Program {
        self.shader
    }

    open spec fn spec_vertex_types() -> Seq<crate::renderer::shader::ShaderDataType> {
        <(Vertex, Color) as Layout>::spec_layout()
    }

    fn shader(&self) -> (r: &Program) {
        &self.shader
    }

    fn layout() -> (r: BufferLayout) {
        BufferLayoutBuilder::<(Vertex, Color)>::build()
    }
}

/// Vertices that take their color from a texture.
#[derive(Clone, Copy, Debug)]
pub struct FlatTexture {
    shader: Program,
}

impl FlatTexture {
    pub fn with_shader(shader: Program) -> (r: Self)
        ensures
            r.spec_shader() == shader,
    {
        FlatTexture { shader }
    }

    /// Vertices of this material sample the given texture.
    pub fn texture_id(texture: RenderID) -> (r: Option<RenderID>)
        ensures
            r == Some(texture),
    {
        Some(texture)
    }
}

impl Material for FlatTexture {
    closed spec fn spec_shader(&self) -> Program {
        self.shader
    }

    open spec fn spec_vertex_types() -> Seq<crate::renderer::shader::ShaderDataType> {
        <(Vertex, TexCoord, TextureID) as Layout>::spec_layout()
    }

    fn shader(&self) -> (r: &Program) {
        &self.shader
    }

    fn layout() -> (r: BufferLayout) {
        BufferLayoutBuilder::<(Vertex, TexCoord, TextureID)>::build()
    }
}

impl VertexData {
    /// The vertex data of an item drawn with a material: the material's
    /// layout and shader, and the texture the item samples, if any.
    pub fn from_material<M: Material>(vertices: Vec<u8>, indices: Vec<u32>, material: &M, texture: Option<RenderID>, z_index: u8)
        -> (r: VertexData)
        ensures
            r@.vertices == vertices@,
            r@.indices == indices@,
            layout_wf(r@.layout.0, r@.layout.1),
            element_types(r@.layout.0) == M::spec_vertex_types(),
            r@.shader == material.spec_shader().spec_id(),
            r@.z_index == z_index,
            r@.texture == texture,
    {
        let layout = M::layout();
        let shader = material.shader().id();
        match texture {
            Some(t) => VertexData::new_textured(vertices, indices, layout, shader, z_index, t),
            None => VertexData::new(vertices, indices, layout, shader, z_index),
        }
    }
}

} // verus!
