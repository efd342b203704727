use client::renderer::batch::VertexData;
use client::renderer::renderer_core::Renderer;
use client::renderer::vertex_layout::{BufferLayoutBuilder, Color, TexCoord, TextureID, Vertex};
use client::renderer::{RenderError, RenderErrorKind};

fn color_quad(fill: u8, z: u8) -> VertexData {
    let layout = BufferLayoutBuilder::<(Vertex, Color)>::build();
    VertexData::new(vec![fill; 4 * 28], vec![0, 1, 2, 2, 3, 0], layout, 1, z)
}

fn textured_quad(texture: u32) -> VertexData {
    let layout = BufferLayoutBuilder::<(Vertex, TexCoord, TextureID)>::build();
    VertexData::new_textured(vec![0xaa; 4 * 24], vec![0, 1, 2, 2, 3, 0], layout, 2, 0, texture)
}

#[test]
fn items_of_one_kind_share_a_batch_and_indices_are_shifted() {
    let mut r = Renderer::new();
    let mut a = color_quad(1, 0);
    let mut b = color_quad(2, 0);
    let la = r.add_vertices(&mut a);
    let lb = r.add_vertices(&mut b);
    assert_eq!(r.batches().len(), 1);
    assert_eq!(la.batch(), lb.batch());
    assert_eq!((la.offset_index(), lb.offset_index()), (0, 1));
    assert_eq!((lb.num_vertices(), lb.num_indices()), (4, 6));
    let batch = &r.batches()[0];
    assert_eq!(batch.vertices().len(), 8 * 28);
    assert_eq!(batch.vertices()[0], 1);
    assert_eq!(batch.vertices()[4 * 28], 2);
    assert_eq!(batch.indices(), &vec![0, 1, 2, 2, 3, 0, 4, 5, 6, 6, 7, 4]);
}

#[test]
fn items_of_other_depths_get_batches_in_depth_order() {
    let mut r = Renderer::new();
    let mut high = color_quad(1, 5);
    let mut low = color_quad(2, 1);
    r.add_vertices(&mut high);
    r.add_vertices(&mut low);
    let zs: Vec<u8> = r.batches().iter().map(|b| b.z_index()).collect();
    assert_eq!(zs, vec![1, 5]);
}

#[test]
fn removing_the_last_item_drops_its_batch() {
    let mut r = Renderer::new();
    let mut a = color_quad(1, 0);
    let mut b = color_quad(2, 0);
    let la = r.add_vertices(&mut a);
    let lb = r.add_vertices(&mut b);
    assert_eq!(r.remove_vertices(&la), None);
    assert_eq!(r.batches()[0].indices(), &vec![0, 1, 2, 2, 3, 0]);
    assert_eq!(r.batches()[0].vertices()[0], 2);
    assert_eq!(r.remove_vertices(&lb), Some(lb.batch()));
    assert!(r.batches().is_empty());
}

#[test]
fn modifying_replaces_the_vertex_bytes() {
    let mut r = Renderer::new();
    let mut a = color_quad(1, 0);
    let la = r.add_vertices(&mut a);
    let mut bytes = vec![9u8; 4 * 28];
    assert!(r.modify_vertices(&la, &mut bytes, None).is_ok());
    assert_eq!(r.batches()[0].vertices()[0], 9);
    let mut short = vec![9u8; 28];
    assert_eq!(
        r.modify_vertices(&la, &mut short, None),
        Err(RenderError(RenderErrorKind::UnexpectedVerticesLength { got: 28, expected: 4 * 28 }))
    );
}

#[test]
fn textured_items_get_their_texture_slot_written() {
    let mut r = Renderer::new();
    let mut a = textured_quad(40);
    let mut b = textured_quad(41);
    r.add_vertices(&mut a);
    let lb = r.add_vertices(&mut b);
    let batch = &r.batches()[0];
    assert_eq!(batch.textures(), &vec![40, 41]);
    let v = batch.vertices();
    assert_eq!(&v[20..24], &[0, 0, 0, 0]);
    let second = lb.offset_index();
    assert_eq!(second, 1);
    assert_eq!(&v[4 * 24 + 20..4 * 24 + 24], &[1, 0, 0, 0]);
    assert_eq!(&v[4 * 24..4 * 24 + 20], &[0xaa; 20]);
}

#[test]
fn pending_uploads_are_taken_once() {
    let mut r = Renderer::new();
    let mut a = color_quad(1, 0);
    r.add_vertices(&mut a);
    assert_eq!(r.take_pending_uploads(0), (true, true));
    assert_eq!(r.take_pending_uploads(0), (false, false));
}

#[test]
fn adding_then_removing_an_item_restores_the_batches() {
    let mut r = Renderer::new();
    let mut a = color_quad(1, 0);
    r.add_vertices(&mut a);
    let before_vertices = r.batches()[0].vertices().clone();
    let before_indices = r.batches()[0].indices().clone();
    let mut b = color_quad(2, 0);
    let lb = r.add_vertices(&mut b);
    assert_eq!(r.remove_vertices(&lb), None);
    assert_eq!(r.batches().len(), 1);
    assert_eq!(r.batches()[0].vertices(), &before_vertices);
    assert_eq!(r.batches()[0].indices(), &before_indices);
}
