use client::renderer::batch::VertexData;
use client::renderer::material::{FlatColor, FlatTexture, Material};
use client::renderer::shader::{Program, ShaderDataType, ShaderType, Shader};
use client::renderer::vertex_layout::{BufferLayoutBuilder, Color, TexCoord, TextureID, Vertex, Layout, ShaderLayoutType};

#[test]
fn attribute_kinds_have_their_data_types() {
    assert_eq!(Vertex::data_type(), ShaderDataType::Float3);
    assert_eq!(TexCoord::data_type(), ShaderDataType::Float2);
    assert_eq!(Color::data_type(), ShaderDataType::Float4);
    assert_eq!(TextureID::data_type(), ShaderDataType::Sampler2D);
    assert_eq!(<(Vertex, Color)>::layout(), vec![ShaderDataType::Float3, ShaderDataType::Float4]);
}

#[test]
fn color_vertex_layout_offsets_and_stride() {
    let l = BufferLayoutBuilder::<(Vertex, Color)>::build();
    assert_eq!(l.stride(), 28);
    let e = l.elements();
    assert_eq!(e.len(), 2);
    assert_eq!((e[0].offset, e[1].offset), (0, 12));
    assert_eq!(e[1].typ, ShaderDataType::Float4);
    assert!(!e[0].normalized && !e[1].normalized);
}

#[test]
fn textured_vertex_layout_offsets_and_stride() {
    let l = BufferLayoutBuilder::<(Vertex, TexCoord, TextureID)>::build();
    assert_eq!(l.stride(), 24);
    let offsets: Vec<u32> = l.elements().iter().map(|e| e.offset).collect();
    assert_eq!(offsets, vec![0, 12, 20]);
}

#[test]
fn single_and_four_attribute_layouts() {
    let one = BufferLayoutBuilder::<(TextureID,)>::build();
    assert_eq!(one.stride(), 4);
    let four = BufferLayoutBuilder::<(Vertex, TexCoord, Color, TextureID)>::build();
    assert_eq!(four.stride(), 12 + 8 + 16 + 4);
}

#[test]
fn materials_keep_their_shader_and_layout() {
    let c = FlatColor::with_shader(Program::from_id(7));
    assert_eq!(c.shader().id(), 7);
    assert_eq!(FlatColor::layout().stride(), 28);
    assert_eq!(FlatColor::color_uniform().0, "u_Color");
    assert_eq!(FlatColor::texture_id(), None);
    let t = FlatTexture::with_shader(Program::from_id(9));
    assert_eq!(t.shader().id(), 9);
    assert_eq!(FlatTexture::layout().stride(), 24);
    assert_eq!(FlatTexture::texture_id(5), Some(5));
}

#[test]
fn shader_stages_and_names() {
    assert_eq!(ShaderType::Vertex.gl_enum(), 0x8B31);
    assert_eq!(ShaderType::Fragment.gl_enum(), 0x8B30);
    assert_eq!(Shader::from_id(4).id(), 4);
}

#[test]
fn vertex_data_of_a_material() {
    let m = FlatTexture::with_shader(Program::from_id(3));
    let d = VertexData::from_material(vec![0; 24], vec![0], &m, Some(8), 2);
    assert_eq!(d.shader(), 3);
    assert_eq!(d.texture(), Some(8));
    assert_eq!(d.z_index(), 2);
    assert_eq!(d.layout().stride(), 24);
    assert_eq!(d.num_vertices(), 1);
}
