//! Batches: the vertices and indices of many renderable items that share a
//! shader, a layout, a z-index and a set of at most sixteen textures, kept
//! in one buffer so that they can be drawn with a single call.

use vstd::prelude::*;
use crate::renderer::{RenderID, RenderError, RenderErrorKind};
use crate::renderer::buffer::{BufferLayout, BufferElement, layout_wf, lemma_element_bounds};
use crate::renderer::shader::{ShaderDataType, spec_size};

verus! {

/// Byte `k` (little-endian, `0 <= k < 4`) of `x`.
pub open spec fn le_byte(x: u32, k: int) -> u8 {
    if k == 0 {
        (x & 0xff) as u8
    } else if k == 1 {
        ((x >> 8) & 0xff) as u8
    } else if k == 2 {
        ((x >> 16) & 0xff) as u8
    } else {
        ((x >> 24) & 0xff) as u8
    }
}

/// Whether byte `r` of a vertex lies in element `i`, a texture sampler.
pub open spec fn sampler_covers(elements: Seq<BufferElement>, r: int, i: int) -> bool {
    &&& 0 <= i < elements.len()
    &&& elements[i].typ == ShaderDataType::Sampler2D
    &&& elements[i].offset <= r < elements[i].offset + 4
}

/// Whether byte `r` of a vertex lies in a texture sampler element.
pub open spec fn in_sampler(elements: Seq<BufferElement>, r: int) -> bool {
    exists|i: int| sampler_covers(elements, r, i)
}

/// The sampler element that byte `r` of a vertex lies in.
pub open spec fn sampler_of(elements: Seq<BufferElement>, r: int) -> int {
    choose|i: int| sampler_covers(elements, r, i)
}

/// The vertex bytes with the texture slot number written, little-endian,
/// into the sampler element of every vertex.
pub open spec fn patched(bytes: Seq<u8>, elements: Seq<BufferElement>, stride: u32, slot: u32) -> Seq<u8> {
    Seq::new(
        bytes.len(),
        |p: int|
            if in_sampler(elements, p % (stride as int)) {
                le_byte(slot, p % (stride as int) - elements[sampler_of(elements, p % (stride as int))].offset)
            } else {
                bytes[p]
            },
    )
}

/// In a well-formed layout no two sampler elements share a byte.
proof fn lemma_sampler_unique(elements: Seq<BufferElement>, stride: u32, r: int, i: int, j: int)
    requires
        layout_wf(elements, stride),
        sampler_covers(elements, r, i),
        sampler_covers(elements, r, j),
    ensures
        i == j,
{
    if i < j {
        lemma_element_bounds(elements, stride, i, j);
    } else if j < i {
        lemma_element_bounds(elements, stride, j, i);
    }
}

/// Writes the little-endian bytes of `slot` into the sampler element of
/// every vertex.
fn patch_texture_id(vertices: &mut Vec<u8>, layout: &BufferLayout, slot: u32)
    requires
        layout.wf(),
        layout@.1 > 0,
        old(vertices)@.len() <= u32::MAX,
        (old(vertices)@.len() as int) % (layout@.1 as int) == 0,
    ensures
        final(vertices)@ == patched(old(vertices)@, layout@.0, layout@.1, slot),
{
    let slot_bytes: [u8; 4] = [
        (slot & 0xff) as u8,
        ((slot >> 8) & 0xff) as u8,
        ((slot >> 16) & 0xff) as u8,
        ((slot >> 24) & 0xff) as u8,
    ];
    let ghost old_v = vertices@;
    let ghost elements = layout@.0;
    let stride = layout.stride();
    let ghost s = stride as int;
    let elems = layout.elements();
    let num_vertices = vertices.len() as u32 / stride;
    proof {
        assert(num_vertices * s == old_v.len() as int) by (nonlinear_arith)
            requires num_vertices == (old_v.len() as int) / s, (old_v.len() as int) % s == 0, s > 0;
    }
    let n_elems = elems.len();
    let mut ei: usize = 0;
    while ei < n_elems
        invariant
            layout.wf(),
            elems@ == elements,
            elements == layout@.0,
            stride == layout@.1,
            s == stride as int,
            s > 0,
            n_elems == elements.len(),
            0 <= ei <= n_elems,
            num_vertices * s == old_v.len(),
            old_v.len() <= u32::MAX,
            vertices@.len() == old_v.len(),
            forall|k: int| 0 <= k < 4 ==> #[trigger] slot_bytes@[k] == le_byte(slot, k),
            forall|p: int| 0 <= p < old_v.len() ==>
                #[trigger] vertices@[p] == (if in_sampler(elements, p % s) && sampler_of(elements, p % s) < ei {
                    patched(old_v, elements, stride, slot)[p]
                } else {
                    old_v[p]
                }),
        decreases n_elems - ei,
    {
        let element = elems[ei];
        if element.typ() == ShaderDataType::Sampler2D {
            let offset = element.offset();
            proof {
                lemma_element_bounds(elements, stride, ei as int, n_elems as int);
            }
            let mut vi: u32 = 0;
            while vi < num_vertices
                invariant
                    layout.wf(),
                    elems@ == elements,
                    elements == layout@.0,
                    stride == layout@.1,
                    s == stride as int,
                    s > 0,
                    n_elems == elements.len(),
                    0 <= ei < n_elems,
                    element == elements[ei as int],
                    element.typ == ShaderDataType::Sampler2D,
                    offset == element.offset,
                    offset + 4 <= s,
                    0 <= vi <= num_vertices,
                    num_vertices * s == old_v.len(),
                    old_v.len() <= u32::MAX,
                    vertices@.len() == old_v.len(),
                    forall|k: int| 0 <= k < 4 ==> #[trigger] slot_bytes@[k] == le_byte(slot, k),
                    forall|p: int| 0 <= p < old_v.len() ==>
                        #[trigger] vertices@[p] == (if in_sampler(elements, p % s) && (
                            sampler_of(elements, p % s) < ei
                            || (sampler_of(elements, p % s) == ei && p / s < vi)) {
                            patched(old_v, elements, stride, slot)[p]
                        } else {
                            old_v[p]
                        }),
                decreases num_vertices - vi,
            {
                proof {
                    assert((vi + 1) * s <= num_vertices * s) by (nonlinear_arith)
                        requires vi < num_vertices, s > 0;
                    assert(vi * s + s == (vi + 1) * s) by (nonlinear_arith);
                    assert(vi * s + offset + 4 <= num_vertices * s);
                }
                let pos: usize = (stride * vi + offset) as usize;
                let mut k: usize = 0;
                while k < 4
                    invariant
                        layout.wf(),
                        elements == layout@.0,
                        stride == layout@.1,
                        s == stride as int,
                        s > 0,
                        0 <= ei < n_elems,
                        n_elems == elements.len(),
                        element == elements[ei as int],
                        element.typ == ShaderDataType::Sampler2D,
                        offset == element.offset,
                        offset + 4 <= s,
                        0 <= vi < num_vertices,
                        pos == vi * s + offset,
                        pos + 4 <= old_v.len(),
                        old_v.len() <= u32::MAX,
                        0 <= k <= 4,
                        vertices@.len() == old_v.len(),
                        forall|k: int| 0 <= k < 4 ==> #[trigger] slot_bytes@[k] == le_byte(slot, k),
                        forall|p: int| 0 <= p < old_v.len() ==>
                            #[trigger] vertices@[p] == (if in_sampler(elements, p % s) && (
                                sampler_of(elements, p % s) < ei
                                || (sampler_of(elements, p % s) == ei && (p / s < vi
                                    || (p / s == vi && p % s < offset + k)))) {
                                patched(old_v, elements, stride, slot)[p]
                            } else {
                                old_v[p]
                            }),
                    decreases 4 - k,
                {
                    let ghost q = (pos + k) as int;
                    proof {
                        assert(q / s == vi && q % s == offset + k) by (nonlinear_arith)
                            requires q == vi * s + offset + k, 0 <= offset + k < s, s > 0, vi >= 0;
                        assert(sampler_covers(elements, q % s, ei as int));
                        lemma_sampler_unique(elements, stride, q % s, ei as int, sampler_of(elements, q % s));
                    }
                    vertices.set(pos + k, slot_bytes[k]);
                    proof {
                        assert forall|p: int| 0 <= p < old_v.len() implies
                            #[trigger] vertices@[p] == (if in_sampler(elements, p % s) && (
                                sampler_of(elements, p % s) < ei
                                || (sampler_of(elements, p % s) == ei && (p / s < vi
                                    || (p / s == vi && p % s < offset + k + 1)))) {
                                patched(old_v, elements, stride, slot)[p]
                            } else {
                                old_v[p]
                            }) by {
                            if p != q && in_sampler(elements, p % s) && sampler_of(elements, p % s) == ei
                                && p / s == vi && p % s == offset + k {
                                assert(p == (p / s) * s + p % s) by (nonlinear_arith) requires s > 0;
                                assert(q == (q / s) * s + q % s) by (nonlinear_arith) requires s > 0;
                            }
                        }
                    }
                    k = k + 1;
                }
                proof {
                    assert forall|p: int| 0 <= p < old_v.len() implies
                        #[trigger] vertices@[p] == (if in_sampler(elements, p % s) && (
                            sampler_of(elements, p % s) < ei
                            || (sampler_of(elements, p % s) == ei && p / s < vi + 1)) {
                            patched(old_v, elements, stride, slot)[p]
                        } else {
                            old_v[p]
                        }) by {
                        if in_sampler(elements, p % s) && sampler_of(elements, p % s) == ei && p / s == vi {
                            let j = sampler_of(elements, p % s);
                            assert(sampler_covers(elements, p % s, j));
                        }
                    }
                }
                vi = vi + 1;
            }
            proof {
                assert forall|p: int| 0 <= p < old_v.len() implies
                    #[trigger] vertices@[p] == (if in_sampler(elements, p % s) && sampler_of(elements, p % s) < ei + 1 {
                        patched(old_v, elements, stride, slot)[p]
                    } else {
                        old_v[p]
                    }) by {
                    if in_sampler(elements, p % s) && sampler_of(elements, p % s) == ei {
                        assert(p / s < num_vertices) by (nonlinear_arith)
                            requires 0 <= p < num_vertices * s, s > 0;
                    }
                }
            }
        } else {
            proof {
                assert forall|p: int| 0 <= p < old_v.len() implies
                    #[trigger] vertices@[p] == (if in_sampler(elements, p % s) && sampler_of(elements, p % s) < ei + 1 {
                        patched(old_v, elements, stride, slot)[p]
                    } else {
                        old_v[p]
                    }) by {
                    if in_sampler(elements, p % s) && sampler_of(elements, p % s) == ei {
                        let j = sampler_of(elements, p % s);
                        assert(sampler_covers(elements, p % s, j));
                    }
                }
            }
        }
        ei = ei + 1;
    }
    proof {
        assert forall|p: int| 0 <= p < old_v.len() implies
            vertices@[p] == patched(old_v, elements, stride, slot)[p] by {
            if in_sampler(elements, p % s) {
                let j = sampler_of(elements, p % s);
                assert(sampler_covers(elements, p % s, j));
            }
        }
        assert(vertices@ =~= patched(old_v, elements, stride, slot));
    }
}

} // verus!

verus! {

/// What a batch holds for one item: its vertex bytes and its indices,
/// counted from the item's first vertex. `None` once the item was removed.
pub type Slot = Option<(Seq<u8>, Seq<u32>)>;

pub open spec fn slot_bytes(x: Slot) -> Seq<u8> {
    match x {
        Some(e) => e.0,
        None => Seq::empty(),
    }
}

pub open spec fn slot_indices(x: Slot) -> Seq<u32> {
    match x {
        Some(e) => e.1,
        None => Seq::empty(),
    }
}

/// Number of vertex bytes held by the slots before slot `j`.
pub open spec fn bytes_before(e: Seq<Slot>, j: int) -> int
    decreases j,
{
    if j <= 0 {
        0
    } else {
        bytes_before(e, j - 1) + slot_bytes(e[j - 1]).len()
    }
}

/// Number of indices held by the slots before slot `j`.
pub open spec fn indices_before(e: Seq<Slot>, j: int) -> int
    decreases j,
{
    if j <= 0 {
        0
    } else {
        indices_before(e, j - 1) + slot_indices(e[j - 1]).len()
    }
}

/// Number of vertices held by the slots before slot `j`.
pub open spec fn verts_before(e: Seq<Slot>, j: int, stride: int) -> int
    decreases j,
{
    if j <= 0 {
        0
    } else {
        verts_before(e, j - 1, stride) + (slot_bytes(e[j - 1]).len() as int) / stride
    }
}

/// The indices moved by `base` vertices.
pub open spec fn rebase(idx: Seq<u32>, base: int) -> Seq<u32> {
    idx.map_values(|i: u32| (i + base) as u32)
}

/// The vertex bytes of all slots, one after the other.
pub open spec fn flat_bytes(e: Seq<Slot>) -> Seq<u8>
    decreases e.len(),
{
    if e.len() == 0 {
        Seq::empty()
    } else {
        flat_bytes(e.drop_last()) + slot_bytes(e.last())
    }
}

/// The indices of all slots, one after the other, each moved by the number
/// of vertices before its slot.
pub open spec fn flat_indices(e: Seq<Slot>, stride: int) -> Seq<u32>
    decreases e.len(),
{
    if e.len() == 0 {
        Seq::empty()
    } else {
        flat_indices(e.drop_last(), stride)
            + rebase(slot_indices(e.last()), verts_before(e, e.len() - 1, stride))
    }
}

/// Every slot holds whole vertices.
pub open spec fn whole_vertices(e: Seq<Slot>, stride: int) -> bool {
    forall|j: int| 0 <= j < e.len() ==> #[trigger] (slot_bytes(e[j]).len() as int) % stride == 0
}

/// Every index, once moved by the vertices before its slot, fits in a `u32`.
pub open spec fn indices_fit(e: Seq<Slot>, stride: int) -> bool {
    forall|j: int, t: int| 0 <= j < e.len() && 0 <= t < slot_indices(e[j]).len() ==>
        #[trigger] slot_indices(e[j])[t] + verts_before(e, j, stride) <= u32::MAX
}

pub proof fn lemma_before_prefix(e: Seq<Slot>, e2: Seq<Slot>, j: int, stride: int)
    requires
        0 <= j <= e.len(),
        j <= e2.len(),
        forall|k: int| 0 <= k < j ==> e[k] == e2[k],
    ensures
        bytes_before(e, j) == bytes_before(e2, j),
        indices_before(e, j) == indices_before(e2, j),
        verts_before(e, j, stride) == verts_before(e2, j, stride),
    decreases j,
{
    if j > 0 {
        lemma_before_prefix(e, e2, j - 1, stride);
    }
}

pub proof fn lemma_before_monotone(e: Seq<Slot>, i: int, j: int, stride: int)
    requires
        0 <= i <= j,
        stride > 0,
    ensures
        bytes_before(e, i) <= bytes_before(e, j),
        indices_before(e, i) <= indices_before(e, j),
        verts_before(e, i, stride) <= verts_before(e, j, stride),
    decreases j - i,
{
    if i < j {
        lemma_before_monotone(e, i, j - 1, stride);
        assert((slot_bytes(e[j - 1]).len() as int) / stride >= 0) by (nonlinear_arith)
            requires stride > 0;
    }
}

pub proof fn lemma_flat_len(e: Seq<Slot>, stride: int)
    ensures
        flat_bytes(e).len() == bytes_before(e, e.len() as int),
        flat_indices(e, stride).len() == indices_before(e, e.len() as int),
    decreases e.len(),
{
    if e.len() > 0 {
        let d = e.drop_last();
        lemma_flat_len(d, stride);
        lemma_before_prefix(d, e, d.len() as int, stride);
    }
}

proof fn lemma_bytes_are_vertices(e: Seq<Slot>, j: int, stride: int)
    requires
        0 <= j <= e.len(),
        stride > 0,
        whole_vertices(e, stride),
    ensures
        bytes_before(e, j) == stride * verts_before(e, j, stride),
    decreases j,
{
    if j > 0 {
        lemma_bytes_are_vertices(e, j - 1, stride);
        let n = slot_bytes(e[j - 1]).len() as int;
        assert(n % stride == 0);
        assert(n == stride * (n / stride)) by (nonlinear_arith)
            requires n % stride == 0, stride > 0;
        assert(stride * verts_before(e, j - 1, stride) + stride * (n / stride)
            == stride * (verts_before(e, j - 1, stride) + n / stride)) by (nonlinear_arith);
    }
}

/// The bytes after replacing one slot: the bytes before it, the new slot's
/// bytes, and the bytes after it.
proof fn lemma_flat_bytes_update(e: Seq<Slot>, oi: int, x: Slot, stride: int)
    requires
        0 <= oi < e.len(),
        stride > 0,
    ensures
        flat_bytes(e.update(oi, x)) == flat_bytes(e).take(bytes_before(e, oi)) + slot_bytes(x)
            + flat_bytes(e).skip(bytes_before(e, oi) + slot_bytes(e[oi]).len()),
    decreases e.len(),
{
    let d = e.drop_last();
    let u = e.update(oi, x);
    lemma_flat_len(d, stride);
    lemma_before_prefix(d, e, d.len() as int, stride);
    if oi == e.len() - 1 {
        assert(u.drop_last() =~= d);
        lemma_before_prefix(d, e, oi, stride);
        assert(flat_bytes(e).take(bytes_before(e, oi)) =~= flat_bytes(d));
        assert(flat_bytes(e).skip(bytes_before(e, oi) + slot_bytes(e[oi]).len()) =~= Seq::<u8>::empty());
        assert(flat_bytes(u) =~= flat_bytes(d) + slot_bytes(x) + Seq::<u8>::empty());
    } else {
        lemma_flat_bytes_update(d, oi, x, stride);
        assert(u.drop_last() =~= d.update(oi, x));
        lemma_before_prefix(d, e, oi + 1, stride);
        lemma_before_monotone(d, oi + 1, d.len() as int, stride);
        let b = bytes_before(e, oi);
        let n = slot_bytes(e[oi]).len() as int;
        let fd = flat_bytes(d);
        lemma_before_monotone(e, 0, oi, stride);
        assert(bytes_before(e, oi + 1) == b + n);
        assert(b + n <= fd.len());
        assert(flat_bytes(e) == fd + slot_bytes(e.last()));
        assert(flat_bytes(e).take(b) =~= fd.take(b));
        assert(flat_bytes(e).skip(b + n) =~= fd.skip(b + n) + slot_bytes(e.last()));
        assert(u.last() == e.last());
        assert(flat_bytes(u) =~= fd.take(b) + slot_bytes(x) + fd.skip(b + n) + slot_bytes(e.last()));
    }
}

/// Bytes before a later slot change by the size change of the replaced slot.
proof fn lemma_before_update(e: Seq<Slot>, oi: int, x: Slot, j: int, stride: int)
    requires
        0 <= oi < e.len(),
        0 <= j <= e.len(),
        stride > 0,
    ensures
        j <= oi ==> bytes_before(e.update(oi, x), j) == bytes_before(e, j),
        j <= oi ==> indices_before(e.update(oi, x), j) == indices_before(e, j),
        j <= oi ==> verts_before(e.update(oi, x), j, stride) == verts_before(e, j, stride),
        j > oi ==> bytes_before(e.update(oi, x), j)
            == bytes_before(e, j) + slot_bytes(x).len() - slot_bytes(e[oi]).len(),
        j > oi ==> indices_before(e.update(oi, x), j)
            == indices_before(e, j) + slot_indices(x).len() - slot_indices(e[oi]).len(),
        j > oi ==> verts_before(e.update(oi, x), j, stride)
            == verts_before(e, j, stride) + (slot_bytes(x).len() as int) / stride - (slot_bytes(e[oi]).len() as int) / stride,
    decreases j,
{
    if j <= oi {
        lemma_before_prefix(e.update(oi, x), e, j, stride);
    } else {
        lemma_before_update(e, oi, x, j - 1, stride);
    }
}

} // verus!

verus! {

/// The indices moved by `d` vertices (`d` may be negative).
pub open spec fn shift(s: Seq<u32>, d: int) -> Seq<u32> {
    s.map_values(|i: u32| (i + d) as u32)
}

proof fn lemma_same_shape(e: Seq<Slot>, e2: Seq<Slot>, stride: int)
    requires
        e.len() == e2.len(),
        forall|j: int| 0 <= j < e.len() ==> slot_indices(#[trigger] e2[j]) == slot_indices(e[j])
            && slot_bytes(e2[j]).len() == slot_bytes(e[j]).len(),
    ensures
        flat_indices(e2, stride) == flat_indices(e, stride),
        forall|j: int| 0 <= j <= e.len() ==> verts_before(e2, j, stride) == #[trigger] verts_before(e, j, stride),
    decreases e.len(),
{
    assert forall|j: int| 0 <= j <= e.len() implies verts_before(e2, j, stride) == #[trigger] verts_before(e, j, stride) by {
        lemma_same_verts(e, e2, j, stride);
    }
    if e.len() > 0 {
        lemma_same_shape(e.drop_last(), e2.drop_last(), stride);
        assert(e2.drop_last().len() == e.drop_last().len());
    }
}

proof fn lemma_same_verts(e: Seq<Slot>, e2: Seq<Slot>, j: int, stride: int)
    requires
        e.len() == e2.len(),
        0 <= j <= e.len(),
        forall|j: int| 0 <= j < e.len() ==> slot_indices(#[trigger] e2[j]) == slot_indices(e[j])
            && slot_bytes(e2[j]).len() == slot_bytes(e[j]).len(),
    ensures
        verts_before(e2, j, stride) == verts_before(e, j, stride),
    decreases j,
{
    if j > 0 {
        lemma_same_verts(e, e2, j - 1, stride);
    }
}

/// The indices after an item is removed: those before it, then those after
/// it moved back by its number of vertices.
proof fn lemma_flat_indices_remove(e: Seq<Slot>, oi: int, stride: int)
    requires
        0 <= oi < e.len(),
        stride > 0,
        indices_fit(e, stride),
    ensures
        ({
            let f = flat_indices(e, stride);
            let ib = indices_before(e, oi);
            let m = slot_indices(e[oi]).len() as int;
            let nv = (slot_bytes(e[oi]).len() as int) / stride;
            &&& flat_indices(e.update(oi, None), stride) == f.take(ib) + shift(f.skip(ib + m), -nv)
            &&& forall|p: int| ib + m <= p < f.len() ==> #[trigger] f[p] >= nv
        }),
    decreases e.len(),
{
    let d = e.drop_last();
    let u = e.update(oi, None);
    let f = flat_indices(e, stride);
    let fd = flat_indices(d, stride);
    let ib = indices_before(e, oi);
    let m = slot_indices(e[oi]).len() as int;
    let nv = (slot_bytes(e[oi]).len() as int) / stride;
    let last = e.len() - 1;
    lemma_flat_len(d, stride);
    lemma_before_prefix(d, e, d.len() as int, stride);
    lemma_before_monotone(e, 0, oi, stride);
    assert(indices_before(e, oi + 1) == ib + m);
    if oi == last {
        assert(u.drop_last() =~= d);
        assert(f == fd + rebase(slot_indices(e.last()), verts_before(e, last, stride)));
        assert(f.take(ib) =~= fd);
        assert(f.skip(ib + m) =~= Seq::<u32>::empty());
        assert(rebase(slot_indices(u.last()), verts_before(u, last, stride)) =~= Seq::<u32>::empty());
        assert(flat_indices(u, stride) =~= fd);
        assert(shift(f.skip(ib + m), -nv) =~= Seq::<u32>::empty());
        assert(flat_indices(u, stride) =~= f.take(ib) + shift(f.skip(ib + m), -nv));
    } else {
        assert forall|j: int, t: int| 0 <= j < d.len() && 0 <= t < slot_indices(d[j]).len() implies
            #[trigger] slot_indices(d[j])[t] + verts_before(d, j, stride) <= u32::MAX by {
            lemma_before_prefix(d, e, j, stride);
            assert(slot_indices(e[j])[t] + verts_before(e, j, stride) <= u32::MAX);
        }
        lemma_flat_indices_remove(d, oi, stride);
        assert(u.drop_last() =~= d.update(oi, None));
        lemma_before_prefix(d, e, oi + 1, stride);
        lemma_before_monotone(d, oi + 1, d.len() as int, stride);
        lemma_before_update(e, oi, None, last, stride);
        lemma_before_monotone(e, oi + 1, last, stride);
        let v = verts_before(e, last, stride);
        assert(verts_before(e, oi + 1, stride) == verts_before(e, oi, stride) + nv);
        lemma_before_monotone(e, 0, oi, stride);
        assert(v >= nv);
        let idx = slot_indices(e.last());
        assert(u.last() == e.last());
        assert(verts_before(u, last, stride) == v - nv);
        assert(f == fd + rebase(idx, v));
        assert(ib + m <= fd.len());
        assert(f.take(ib) =~= fd.take(ib));
        assert(f.skip(ib + m) =~= fd.skip(ib + m) + rebase(idx, v));
        assert forall|t: int| 0 <= t < idx.len() implies
            #[trigger] rebase(idx, v - nv)[t] == shift(rebase(idx, v), -nv)[t] && rebase(idx, v)[t] >= nv by {
            assert(idx[t] + verts_before(e, last, stride) <= u32::MAX);
        }
        assert(rebase(idx, v - nv) =~= shift(rebase(idx, v), -nv));
        assert(shift(fd.skip(ib + m) + rebase(idx, v), -nv)
            =~= shift(fd.skip(ib + m), -nv) + shift(rebase(idx, v), -nv));
        assert(flat_indices(u, stride) =~= f.take(ib) + shift(f.skip(ib + m), -nv));
        assert forall|p: int| ib + m <= p < f.len() implies #[trigger] f[p] >= nv by {
            if p < fd.len() {
                assert(f[p] == fd[p]);
            } else {
                assert(f[p] == rebase(idx, v)[p - fd.len()]);
            }
        }
    }
}

} // verus!

verus! {

pub type BatchID = u64;

/// Vertex bytes a batch may hold before it counts as full (the comparison is
/// made on bytes).
pub const MAX_BATCH_VERTEX_COUNT: u32 = 6000;
/// Indices a batch may hold before it counts as full.
pub const MAX_BATCH_INDEX_COUNT: u32 = 6000;
/// Texture slots per batch (the minimum OpenGL guarantees per stage).
pub const NUM_TEXTURE_SLOTS: usize = 16;
/// Largest number of vertex bytes or indices that an item or a batch holds,
/// which keeps the `u32` arithmetic on them exact.
pub const MAX_ITEM_LEN: usize = 0x7fff_ffff;

/// The vertices and indices of one item, with what decides which batch it
/// may join.
pub struct VertexData {
    vertices: Vec<u8>,
    indices: Vec<u32>,
    layout: BufferLayout,
    shader: RenderID,
    z_index: u8,
    texture: Option<RenderID>,
}

pub struct VertexDataView {
    pub vertices: Seq<u8>,
    pub indices: Seq<u32>,
    pub layout: (Seq<BufferElement>, u32),
    pub shader: RenderID,
    pub z_index: u8,
    pub texture: Option<RenderID>,
}

impl View for VertexData {
    type V = VertexDataView;

    closed spec fn view(&self) -> VertexDataView {
        VertexDataView {
            vertices: self.vertices@,
            indices: self.indices@,
            layout: self.layout@,
            shader: self.shader,
            z_index: self.z_index,
            texture: self.texture,
        }
    }
}

impl VertexData {
    pub fn new(vertices: Vec<u8>, indices: Vec<u32>, layout: BufferLayout, shader: RenderID, z_index: u8) -> (r: Self)
        ensures
            r@ == (VertexDataView {
                vertices: vertices@,
                indices: indices@,
                layout: layout@,
                shader,
                z_index,
                texture: None,
            }),
    {
        VertexData { vertices, indices, layout, shader, z_index, texture: None }
    }

    pub fn new_textured(
        vertices: Vec<u8>,
        indices: Vec<u32>,
        layout: BufferLayout,
        shader: RenderID,
        z_index: u8,
        texture: RenderID,
    ) -> (r: Self)
        ensures
            r@ == (VertexDataView {
                vertices: vertices@,
                indices: indices@,
                layout: layout@,
                shader,
                z_index,
                texture: Some(texture),
            }),
    {
        VertexData { vertices, indices, layout, shader, z_index, texture: Some(texture) }
    }

    pub fn indices(&self) -> (r: &Vec<u32>)
        ensures
            r@ == self@.indices,
    {
        &self.indices
    }

    pub fn num_indices(&self) -> (r: u32)
        ensures
            r == self@.indices.len() as u32,
    {
        self.indices.len() as u32
    }

    pub fn layout(&self) -> (r: &BufferLayout)
        ensures
            r@ == self@.layout,
    {
        &self.layout
    }

    pub fn vertices(&self) -> (r: &Vec<u8>)
        ensures
            r@ == self@.vertices,
    {
        &self.vertices
    }

    /// Replaces the vertex bytes.
    pub fn set_vertices(&mut self, vertices: Vec<u8>)
        ensures
            final(self)@ == (VertexDataView { vertices: vertices@, ..old(self)@ }),
    {
        self.vertices = vertices;
    }

    pub fn vertices_num_bytes(&self) -> (r: u32)
        ensures
            r == self@.vertices.len() as u32,
    {
        self.vertices.len() as u32
    }

    pub fn num_vertices(&self) -> (r: u32)
        requires
            self@.layout.1 > 0,
        ensures
            r == (self@.vertices.len() as u32) / self@.layout.1,
    {
        self.vertices.len() as u32 / self.layout.stride()
    }

    pub fn texture(&self) -> (r: Option<RenderID>)
        ensures
            r == self@.texture,
    {
        self.texture
    }

    pub fn shader(&self) -> (r: RenderID)
        ensures
            r == self@.shader,
    {
        self.shader
    }

    pub fn z_index(&self) -> (r: u8)
        ensures
            r == self@.z_index,
    {
        self.z_index
    }
}

/// Where the vertices of one item sit: the batch, the item's slot in it and
/// how many vertices and indices it has.
#[derive(Clone, Copy, Debug)]
pub struct VertexLocation {
    batch: BatchID,
    offset_index: usize,
    num_vertices: u32,
    num_indices: u32,
}

pub struct VertexLocationView {
    pub batch: BatchID,
    pub offset_index: usize,
    pub num_vertices: u32,
    pub num_indices: u32,
}

impl View for VertexLocation {
    type V = VertexLocationView;

    closed spec fn view(&self) -> VertexLocationView {
        VertexLocationView {
            batch: self.batch,
            offset_index: self.offset_index,
            num_vertices: self.num_vertices,
            num_indices: self.num_indices,
        }
    }
}

impl VertexLocation {
    pub fn batch(&self) -> (r: BatchID)
        ensures
            r == self@.batch,
    {
        self.batch
    }

    pub fn offset_index(&self) -> (r: usize)
        ensures
            r == self@.offset_index,
    {
        self.offset_index
    }

    pub fn num_vertices(&self) -> (r: u32)
        ensures
            r == self@.num_vertices,
    {
        self.num_vertices
    }

    pub fn num_indices(&self) -> (r: u32)
        ensures
            r == self@.num_indices,
    {
        self.num_indices
    }
}

/// Where the vertex bytes and the indices of one slot begin.
#[derive(Clone, Copy, Debug)]
pub struct Offset {
    vertices: usize,
    indices: usize,
}

impl Offset {
    pub fn new(vertices: usize, indices: usize) -> (r: Self)
        ensures
            r.spec_vertices() == vertices,
            r.spec_indices() == indices,
    {
        Offset { vertices, indices }
    }

    pub closed spec fn spec_vertices(&self) -> usize {
        self.vertices
    }

    pub closed spec fn spec_indices(&self) -> usize {
        self.indices
    }
}

} // verus!

verus! {

pub struct BatchView {
    pub id: BatchID,
    pub layout: (Seq<BufferElement>, u32),
    pub shader: RenderID,
    pub z_index: u8,
    pub textures: Seq<RenderID>,
    pub slots: Seq<Slot>,
    pub vertices: Seq<u8>,
    pub indices: Seq<u32>,
    pub vertices_dirty: bool,
    pub indices_dirty: bool,
}

/// A batch is well formed when its layout is, its vertex bytes and indices
/// are those of its slots one after the other (the indices of each slot
/// moved by the vertices before it), and it uses at most sixteen distinct
/// textures.
pub open spec fn batch_view_wf(v: BatchView) -> bool {
    &&& layout_wf(v.layout.0, v.layout.1)
    &&& v.layout.0.len() > 0
    &&& v.layout.1 > 0
    &&& whole_vertices(v.slots, v.layout.1 as int)
    &&& indices_fit(v.slots, v.layout.1 as int)
    &&& v.vertices == flat_bytes(v.slots)
    &&& v.indices == flat_indices(v.slots, v.layout.1 as int)
    &&& v.vertices.len() <= MAX_ITEM_LEN
    &&& v.indices.len() <= MAX_ITEM_LEN
    &&& v.textures.len() <= NUM_TEXTURE_SLOTS
    &&& v.textures.no_duplicates()
    &&& v.slots.len() <= usize::MAX
}

/// Number of vertices in a batch.
pub open spec fn batch_vertex_count(v: BatchView) -> int {
    (v.vertices.len() as int) / (v.layout.1 as int)
}

/// Whether the location names a slot of this batch that holds an item with
/// the location's counts.
pub open spec fn holds(v: BatchView, loc: VertexLocationView) -> bool {
    &&& loc.batch == v.id
    &&& 0 <= loc.offset_index < v.slots.len()
    &&& v.slots[loc.offset_index as int] is Some
    &&& slot_bytes(v.slots[loc.offset_index as int]).len() == loc.num_vertices * v.layout.1
    &&& slot_indices(v.slots[loc.offset_index as int]).len() == loc.num_indices
}

/// Whether the item belongs in the batch (same z-index, shader and layout)
/// and the batch has room for it and for its texture.
pub open spec fn space_for(b: BatchView, d: VertexDataView) -> bool {
    &&& b.z_index == d.z_index
    &&& b.shader == d.shader
    &&& b.layout == d.layout
    &&& b.vertices.len() + d.vertices.len() < MAX_BATCH_VERTEX_COUNT
    &&& b.indices.len() + d.indices.len() < MAX_BATCH_INDEX_COUNT
    &&& (d.texture matches Some(t) ==> b.textures.contains(t) || b.textures.len() < NUM_TEXTURE_SLOTS)
}

/// A batch takes an item exactly when the item belongs in it (same z-index,
/// shader and layout), the batch's vertex bytes and indices with the item's
/// stay below 6000 each, and the item's texture already has a slot or one of
/// the 16 slots is free.
pub proof fn law_space_for_is_the_batch_limit(b: BatchView, d: VertexDataView)
    ensures
        space_for(b, d) <==> {
            &&& b.z_index == d.z_index
            &&& b.shader == d.shader
            &&& b.layout == d.layout
            &&& b.vertices.len() + d.vertices.len() < 6000
            &&& b.indices.len() + d.indices.len() < 6000
            &&& (d.texture matches Some(t) ==> b.textures.contains(t) || b.textures.len() < 16)
        },
{
}

/// Whether the item may be added to the batch: same layout, whole vertices,
/// indices that still fit once moved behind the batch's vertices, lengths in
/// bounds and room for its texture.
pub open spec fn fits_in(b: BatchView, d: VertexDataView) -> bool {
    &&& d.layout == b.layout
    &&& (d.vertices.len() as int) % (b.layout.1 as int) == 0
    &&& b.vertices.len() + d.vertices.len() <= MAX_ITEM_LEN
    &&& b.indices.len() + d.indices.len() <= MAX_ITEM_LEN
    &&& forall|t: int| 0 <= t < d.indices.len() ==> #[trigger] d.indices[t] + batch_vertex_count(b) <= u32::MAX
    &&& (d.texture matches Some(t) ==> b.textures.contains(t) || b.textures.len() < NUM_TEXTURE_SLOTS)
}

/// The textures of the batch once the item's texture has a slot.
pub open spec fn textures_with(textures: Seq<RenderID>, texture: Option<RenderID>) -> Seq<RenderID> {
    match texture {
        Some(t) => if textures.contains(t) { textures } else { textures.push(t) },
        None => textures,
    }
}

/// The item's vertex bytes with its texture slot written into them.
pub open spec fn with_slot(bytes: Seq<u8>, layout: (Seq<BufferElement>, u32), textures: Seq<RenderID>, texture: Option<RenderID>) -> Seq<u8> {
    match texture {
        Some(t) => patched(bytes, layout.0, layout.1, textures.index_of(t) as u32),
        None => bytes,
    }
}

/// The item's bytes as the batch stores them once it is added.
pub open spec fn added_bytes(b: BatchView, d: VertexDataView) -> Seq<u8> {
    with_slot(d.vertices, b.layout, textures_with(b.textures, d.texture), d.texture)
}

/// The batch once the item is added behind the items it holds.
pub open spec fn added(b: BatchView, d: VertexDataView) -> BatchView {
    BatchView {
        textures: textures_with(b.textures, d.texture),
        slots: b.slots.push(Some((added_bytes(b, d), d.indices))),
        vertices: b.vertices + added_bytes(b, d),
        indices: b.indices + rebase(d.indices, batch_vertex_count(b)),
        vertices_dirty: true,
        indices_dirty: true,
        ..b
    }
}

/// Where an item added to the batch sits.
pub open spec fn added_location(b: BatchView, d: VertexDataView) -> VertexLocationView {
    VertexLocationView {
        batch: b.id,
        offset_index: b.slots.len() as usize,
        num_vertices: ((d.vertices.len() as int) / (b.layout.1 as int)) as u32,
        num_indices: d.indices.len() as u32,
    }
}

/// A new, empty batch for items like the given one.
pub open spec fn empty_batch(id: BatchID, d: VertexDataView) -> BatchView {
    BatchView {
        id,
        layout: d.layout,
        shader: d.shader,
        z_index: d.z_index,
        textures: Seq::empty(),
        slots: Seq::empty(),
        vertices: Seq::empty(),
        indices: Seq::empty(),
        vertices_dirty: false,
        indices_dirty: false,
    }
}

/// The batch once the item in slot `oi` is removed.
pub open spec fn removed_from(b: BatchView, oi: int) -> BatchView {
    let e2 = removed(b.slots, oi);
    BatchView {
        slots: e2,
        vertices: flat_bytes(e2),
        indices: flat_indices(e2, b.layout.1 as int),
        vertices_dirty: true,
        indices_dirty: true,
        ..b
    }
}

/// What replacing the item's vertex bytes gives: the result, the batch and
/// the bytes as patched with the texture slot.
pub open spec fn modified(b: BatchView, loc: VertexLocationView, data: Seq<u8>, texture: Option<RenderID>)
    -> (Result<(), RenderError>, BatchView, Seq<u8>)
{
    let oi = loc.offset_index as int;
    let nvb = loc.num_vertices * b.layout.1;
    if nvb != data.len() {
        (Err(RenderError(RenderErrorKind::UnexpectedVerticesLength { got: data.len() as usize, expected: nvb as usize })), b, data)
    } else if texture is Some && !b.textures.contains(texture->0) {
        (Err(RenderError(RenderErrorKind::MissingTextureSlot(texture->0))), b, data)
    } else {
        let bytes = with_slot(data, b.layout, b.textures, texture);
        let e2 = b.slots.update(oi, Some((bytes, slot_indices(b.slots[oi]))));
        (Ok(()), BatchView { slots: e2, vertices: flat_bytes(e2), vertices_dirty: true, ..b }, bytes)
    }
}

/// The vertices of many items that are drawn together.
pub struct Batch {
    id: BatchID,
    layout: BufferLayout,
    vertices: Vec<u8>,
    vertices_dirty: bool,
    indices: Vec<u32>,
    indices_dirty: bool,
    offsets: Vec<Offset>,
    shader: RenderID,
    textures: Vec<RenderID>,
    z_index: u8,
    slots: Ghost<Seq<Slot>>,
}

impl View for Batch {
    type V = BatchView;

    closed spec fn view(&self) -> BatchView {
        BatchView {
            id: self.id,
            layout: self.layout@,
            shader: self.shader,
            z_index: self.z_index,
            textures: self.textures@,
            slots: self.slots@,
            vertices: self.vertices@,
            indices: self.indices@,
            vertices_dirty: self.vertices_dirty,
            indices_dirty: self.indices_dirty,
        }
    }
}

/// Index of a value in a sequence that holds it, if it does.
fn position(v: &Vec<RenderID>, x: RenderID) -> (r: Option<usize>)
    ensures
        r matches Some(i) ==> i < v@.len() && v@[i as int] == x && forall|j: int| 0 <= j < i ==> v@[j] != x,
        r is None ==> !v@.contains(x),
{
    let mut i: usize = 0;
    while i < v.len()
        invariant
            0 <= i <= v@.len(),
            forall|j: int| 0 <= j < i ==> v@[j] != x,
        decreases v@.len() - i,
    {
        if v[i] == x {
            return Some(i);
        }
        i = i + 1;
    }
    None
}

/// Removes the elements in `start..end`.
fn drain_range<T>(v: &mut Vec<T>, start: usize, end: usize)
    requires
        start <= end <= old(v)@.len(),
    ensures
        final(v)@ == old(v)@.take(start as int) + old(v)@.skip(end as int),
{
    let mut tail = v.split_off(end);
    v.truncate(start);
    v.append(&mut tail);
    proof {
        assert(v@ =~= old(v)@.take(start as int) + old(v)@.skip(end as int));
    }
}

impl Batch {
    pub closed spec fn inv(&self) -> bool {
        &&& self.offsets@.len() == self.slots@.len()
        &&& forall|j: int| 0 <= j < self.offsets@.len() ==>
                #[trigger] self.offsets@[j].vertices == bytes_before(self.slots@, j)
                && self.offsets@[j].indices == indices_before(self.slots@, j)
    }

    pub open spec fn wf(&self) -> bool {
        &&& self.inv()
        &&& batch_view_wf(self@)
    }

    /// An empty batch for items like the given one: same layout, shader and
    /// z-index.
    pub fn new(id: BatchID, data: &VertexData) -> (r: Batch)
        requires
            layout_wf(data@.layout.0, data@.layout.1),
            data@.layout.0.len() > 0,
        ensures
            r.wf(),
            r@ == empty_batch(id, data@),
    {
        proof {
            lemma_element_bounds(data@.layout.0, data@.layout.1, 0, data@.layout.0.len() as int);
        }
        let b = Batch {
            id,
            layout: data.layout().clone(),
            vertices: Vec::new(),
            vertices_dirty: false,
            indices: Vec::new(),
            indices_dirty: false,
            offsets: Vec::new(),
            shader: data.shader(),
            textures: Vec::new(),
            z_index: data.z_index(),
            slots: Ghost(Seq::empty()),
        };
        proof {
            assert(b.vertices@ =~= flat_bytes(b.slots@));
            assert(b.indices@ =~= flat_indices(b.slots@, b.layout@.1 as int));
        }
        b
    }

    pub fn id(&self) -> (r: BatchID)
        ensures
            r == self@.id,
    {
        self.id
    }

    pub fn z_index(&self) -> (r: u8)
        ensures
            r == self@.z_index,
    {
        self.z_index
    }

    pub fn shader(&self) -> (r: RenderID)
        ensures
            r == self@.shader,
    {
        self.shader
    }

    pub fn layout(&self) -> (r: &BufferLayout)
        ensures
            r@ == self@.layout,
    {
        &self.layout
    }

    pub fn textures(&self) -> (r: &Vec<RenderID>)
        ensures
            r@ == self@.textures,
    {
        &self.textures
    }

    pub fn vertices(&self) -> (r: &Vec<u8>)
        ensures
            r@ == self@.vertices,
    {
        &self.vertices
    }

    pub fn indices(&self) -> (r: &Vec<u32>)
        ensures
            r@ == self@.indices,
    {
        &self.indices
    }

    /// Whether the item belongs in this batch and the batch has room for it.
    pub fn has_space_for(&self, data: &VertexData) -> (r: bool)
        requires
            self.wf(),
            data@.vertices.len() <= MAX_ITEM_LEN,
            data@.indices.len() <= MAX_ITEM_LEN,
        ensures
            r == space_for(self@, data@),
            r ==> self@.vertices.len() + data@.vertices.len() < 6000,
            r ==> self@.indices.len() + data@.indices.len() < 6000,
    {
        proof {
            law_space_for_is_the_batch_limit(self@, data@);
        }
        if self.z_index != data.z_index() || self.shader != data.shader() || !self.layout.same_as(data.layout()) {
            return false;
        }
        if self.vertices.len() as u32 + data.vertices_num_bytes() >= MAX_BATCH_VERTEX_COUNT {
            return false;
        }
        if self.indices.len() as u32 + data.num_indices() >= MAX_BATCH_INDEX_COUNT {
            return false;
        }
        if let Some(t) = data.texture() {
            return position(&self.textures, t).is_some() || self.textures.len() < NUM_TEXTURE_SLOTS;
        }
        true
    }

    /// Whether the batch holds no vertex bytes and no indices.
    pub fn is_deletable(&self) -> (r: bool)
        ensures
            r == (self@.indices.len() == 0 && self@.vertices.len() == 0),
    {
        self.indices.len() == 0 && self.vertices.len() == 0
    }

    /// Which buffers changed since they were last uploaded, as
    /// (indices, vertices); both count as uploaded afterwards.
    pub fn take_pending_uploads(&mut self) -> (r: (bool, bool))
        ensures
            r == (old(self)@.indices_dirty, old(self)@.vertices_dirty),
            final(self)@ == (BatchView { indices_dirty: false, vertices_dirty: false, ..old(self)@ }),
            final(self).inv() == old(self).inv(),
    {
        let r = (self.indices_dirty, self.vertices_dirty);
        self.indices_dirty = false;
        self.vertices_dirty = false;
        r
    }
}

} // verus!

verus! {

proof fn lemma_index_of_unique(s: Seq<RenderID>, i: int)
    requires
        s.no_duplicates(),
        0 <= i < s.len(),
    ensures
        s.index_of(s[i]) == i,
{
    let c = s.index_of(s[i]);
    assert(0 <= c < s.len() && s[c] == s[i]);
}

/// Facts about the slots after one more item is pushed.
proof fn lemma_push_slot(e: Seq<Slot>, x: Slot, stride: int)
    requires
        stride > 0,
        whole_vertices(e, stride),
    ensures
        flat_bytes(e.push(x)) == flat_bytes(e) + slot_bytes(x),
        flat_indices(e.push(x), stride) == flat_indices(e, stride) + rebase(slot_indices(x), verts_before(e, e.len() as int, stride)),
        forall|j: int| 0 <= j <= e.len() ==> #[trigger] bytes_before(e.push(x), j) == bytes_before(e, j),
        forall|j: int| 0 <= j <= e.len() ==> #[trigger] indices_before(e.push(x), j) == indices_before(e, j),
        forall|j: int| 0 <= j <= e.len() ==> #[trigger] verts_before(e.push(x), j, stride) == verts_before(e, j, stride),
        flat_bytes(e).len() == stride * verts_before(e, e.len() as int, stride),
        flat_bytes(e).len() == bytes_before(e, e.len() as int),
        flat_indices(e, stride).len() == indices_before(e, e.len() as int),
{
    let p = e.push(x);
    assert(p.drop_last() =~= e);
    assert forall|j: int| 0 <= j <= e.len() implies #[trigger] bytes_before(p, j) == bytes_before(e, j) by {
        lemma_before_prefix(p, e, j, stride);
    }
    assert forall|j: int| 0 <= j <= e.len() implies #[trigger] indices_before(p, j) == indices_before(e, j) by {
        lemma_before_prefix(p, e, j, stride);
    }
    assert forall|j: int| 0 <= j <= e.len() implies #[trigger] verts_before(p, j, stride) == verts_before(e, j, stride) by {
        lemma_before_prefix(p, e, j, stride);
    }
    lemma_flat_len(e, stride);
    lemma_bytes_are_vertices(e, e.len() as int, stride);
}

impl Batch {
    /// Adds the item's vertices and indices behind those already in the
    /// batch, giving its texture a slot (a new one if the batch does not hold
    /// the texture yet) and writing the slot number into the item's vertices.
    pub fn add_vertices(&mut self, data: &mut VertexData) -> (r: VertexLocation)
        requires
            old(self).wf(),
            fits_in(old(self)@, old(data)@),
        ensures
            final(self).wf(),
            final(self)@ == added(old(self)@, old(data)@),
            final(data)@ == (VertexDataView { vertices: added_bytes(old(self)@, old(data)@), ..old(data)@ }),
            r@ == added_location(old(self)@, old(data)@),
    {
        let ghost b = self@;
        let ghost d = data@;
        let ghost stride = b.layout.1 as int;
        let ghost t2 = textures_with(b.textures, d.texture);
        let ghost bytes = with_slot(d.vertices, b.layout, t2, d.texture);
        if let Some(tex_id) = data.texture {
            let index = match position(&self.textures, tex_id) {
                Some(i) => i,
                None => {
                    self.textures.push(tex_id);
                    proof {
                        assert(self.textures@.no_duplicates()) by {
                            assert forall|i: int, j: int| 0 <= i < j < self.textures@.len() implies
                                self.textures@[i] != self.textures@[j] by {
                                if j == self.textures@.len() - 1 {
                                    assert(b.textures[i] != tex_id);
                                }
                            }
                        }
                    }
                    self.textures.len() - 1
                },
            };
            proof {
                assert(self.textures@ == t2);
                lemma_index_of_unique(t2, index as int);
            }
            patch_texture_id(&mut data.vertices, &data.layout, index as u32);
        }
        assert(data@.vertices == bytes);
        let num_existing_vert_bytes = self.vertices.len();
        let num_existing_vertices = num_existing_vert_bytes as u32 / self.layout.stride();
        let num_existing_indices = self.indices.len();
        proof {
            lemma_push_slot(b.slots, Some((bytes, d.indices)), stride);
            assert(num_existing_vertices == verts_before(b.slots, b.slots.len() as int, stride)) by (nonlinear_arith)
                requires
                    num_existing_vertices == (num_existing_vert_bytes as int) / stride,
                    num_existing_vert_bytes == stride * verts_before(b.slots, b.slots.len() as int, stride),
                    stride > 0;
        }
        let n = data.vertices.len();
        let mut i: usize = 0;
        while i < n
            invariant
                n == bytes.len(),
                data@.vertices == bytes,
                0 <= i <= n,
                self.vertices@ == b.vertices + bytes.take(i as int),
                self.indices@ == b.indices,
                self.offsets@ == old(self).offsets@,
                self.textures@ == t2,
                self.layout@ == b.layout,
                self.slots == old(self).slots,
                self.id == b.id,
                self.z_index == b.z_index,
                self.shader == b.shader,
            decreases n - i,
        {
            self.vertices.push(data.vertices[i]);
            proof {
                assert(bytes.take(i + 1) =~= bytes.take(i as int).push(bytes[i as int]));
            }
            i = i + 1;
        }
        proof {
            assert(bytes.take(n as int) =~= bytes);
        }
        self.vertices_dirty = true;
        let m = data.indices.len();
        let mut k: usize = 0;
        while k < m
            invariant
                m == d.indices.len(),
                data@.indices == d.indices,
                0 <= k <= m,
                num_existing_vertices == batch_vertex_count(b),
                self.vertices@ == b.vertices + bytes,
                self.offsets@ == old(self).offsets@,
                self.textures@ == t2,
                self.layout@ == b.layout,
                self.slots == old(self).slots,
                self.id == b.id,
                self.z_index == b.z_index,
                self.shader == b.shader,
                self.vertices_dirty,
                forall|t: int| 0 <= t < d.indices.len() ==> #[trigger] d.indices[t] + batch_vertex_count(b) <= u32::MAX,
                self.indices@ == b.indices + rebase(d.indices, batch_vertex_count(b)).take(k as int),
            decreases m - k,
        {
            self.indices.push(data.indices[k] + num_existing_vertices);
            proof {
                assert(rebase(d.indices, batch_vertex_count(b)).take(k + 1)
                    =~= rebase(d.indices, batch_vertex_count(b)).take(k as int).push(
                        (d.indices[k as int] + num_existing_vertices) as u32));
            }
            k = k + 1;
        }
        proof {
            assert(rebase(d.indices, batch_vertex_count(b)).take(m as int) =~= rebase(d.indices, batch_vertex_count(b)));
        }
        self.indices_dirty = true;
        self.offsets.push(Offset::new(num_existing_vert_bytes, num_existing_indices));
        let num_offsets = self.offsets.len();
        self.slots = Ghost(b.slots.push(Some((bytes, d.indices))));
        proof {
            let e2 = self.slots@;
            assert(bytes.len() == d.vertices.len());
            assert(whole_vertices(e2, stride)) by {
                assert forall|j: int| 0 <= j < e2.len() implies #[trigger] (slot_bytes(e2[j]).len() as int) % stride == 0 by {
                    if j < b.slots.len() {
                        assert(e2[j] == b.slots[j]);
                    }
                }
            }
            assert(indices_fit(e2, stride)) by {
                assert forall|j: int, t: int| 0 <= j < e2.len() && 0 <= t < slot_indices(e2[j]).len() implies
                    #[trigger] slot_indices(e2[j])[t] + verts_before(e2, j, stride) <= u32::MAX by {
                    assert(verts_before(e2, j, stride) == verts_before(b.slots, j, stride));
                    if j < b.slots.len() {
                        assert(e2[j] == b.slots[j]);
                    }
                }
            }
            assert forall|j: int| 0 <= j < self.offsets@.len() implies
                #[trigger] self.offsets@[j].vertices == bytes_before(e2, j)
                && self.offsets@[j].indices == indices_before(e2, j) by {
                if j < b.slots.len() {
                    assert(self.offsets@[j] == old(self).offsets@[j]);
                }
            }
        }
        VertexLocation {
            batch: self.id,
            offset_index: num_offsets - 1,
            num_vertices: data.num_vertices(),
            num_indices: data.num_indices(),
        }
    }
}

} // verus!

verus! {

/// The slots once the item in slot `oi` is removed: the last slot is
/// dropped, any other one is left empty so that later slots keep their
/// place.
pub open spec fn removed(e: Seq<Slot>, oi: int) -> Seq<Slot> {
    if oi == e.len() - 1 {
        e.drop_last()
    } else {
        e.update(oi, None)
    }
}

proof fn lemma_drop_last_is_clear(e: Seq<Slot>, stride: int)
    requires
        e.len() > 0,
    ensures
        flat_bytes(e.drop_last()) == flat_bytes(e.update(e.len() - 1, None)),
        flat_indices(e.drop_last(), stride) == flat_indices(e.update(e.len() - 1, None), stride),
{
    let u = e.update(e.len() - 1, None);
    assert(u.drop_last() =~= e.drop_last());
    assert(flat_bytes(u) =~= flat_bytes(e.drop_last()));
    assert(flat_indices(u, stride) =~= flat_indices(e.drop_last(), stride));
}

proof fn lemma_removed_wf(e: Seq<Slot>, oi: int, stride: int)
    requires
        0 <= oi < e.len(),
        stride > 0,
        whole_vertices(e, stride),
        indices_fit(e, stride),
    ensures
        whole_vertices(removed(e, oi), stride),
        indices_fit(removed(e, oi), stride),
        forall|j: int| 0 <= j <= removed(e, oi).len() ==>
            #[trigger] bytes_before(removed(e, oi), j) == bytes_before(e.update(oi, None), j)
            && indices_before(removed(e, oi), j) == indices_before(e.update(oi, None), j),
{
    let u = e.update(oi, None);
    let r = removed(e, oi);
    assert forall|j: int| 0 <= j < u.len() implies #[trigger] (slot_bytes(u[j]).len() as int) % stride == 0 by {
        if j != oi {
            assert(u[j] == e[j]);
        } else {
            assert(slot_bytes(u[j]).len() == 0);
            assert(0int % stride == 0) by (nonlinear_arith) requires stride > 0;
        }
    }
    assert forall|j: int, t: int| 0 <= j < u.len() && 0 <= t < slot_indices(u[j]).len() implies
        #[trigger] slot_indices(u[j])[t] + verts_before(u, j, stride) <= u32::MAX by {
        lemma_before_update(e, oi, None, j, stride);
        assert(u[j] == e[j]);
        assert(slot_indices(e[j])[t] + verts_before(e, j, stride) <= u32::MAX);
        assert((slot_bytes(e[oi]).len() as int) / stride >= 0) by (nonlinear_arith) requires stride > 0;
    }
    assert forall|j: int| 0 <= j <= r.len() implies
        #[trigger] bytes_before(r, j) == bytes_before(u, j)
        && indices_before(r, j) == indices_before(u, j) by {
        lemma_before_prefix(r, u, j, stride);
    }
    if oi == e.len() - 1 {
        assert forall|j: int| 0 <= j < r.len() implies #[trigger] (slot_bytes(r[j]).len() as int) % stride == 0 by {
            assert(r[j] == u[j]);
        }
        assert forall|j: int, t: int| 0 <= j < r.len() && 0 <= t < slot_indices(r[j]).len() implies
            #[trigger] slot_indices(r[j])[t] + verts_before(r, j, stride) <= u32::MAX by {
            lemma_before_prefix(r, u, j, stride);
            assert(r[j] == u[j]);
            assert(slot_indices(u[j])[t] + verts_before(u, j, stride) <= u32::MAX);
        }
    }
}

impl Batch {
    /// Removes the item's vertex bytes and indices; the indices of later
    /// items move back by its number of vertices.
    pub fn remove_vertices(&mut self, location: &VertexLocation)
        requires
            old(self).wf(),
            holds(old(self)@, location@),
        ensures
            final(self).wf(),
            final(self)@ == removed_from(old(self)@, location@.offset_index as int),
    {
        let ghost b = self@;
        let ghost e = b.slots;
        let ghost stride = b.layout.1 as int;
        let oi = location.offset_index;
        let ghost u = e.update(oi as int, None);
        let ghost f = flat_indices(e, stride);
        let off = self.offsets[oi];
        let ni = location.num_indices as usize;
        let nv = location.num_vertices;
        proof {
            lemma_flat_len(e, stride);
            lemma_before_monotone(e, oi + 1, e.len() as int, stride);
            lemma_before_monotone(e, 0, oi as int, stride);
            assert(bytes_before(e, oi + 1) == off.vertices + nv * stride);
            assert(indices_before(e, oi + 1) == off.indices + ni);
            lemma_flat_bytes_update(e, oi as int, None, stride);
            lemma_flat_indices_remove(e, oi as int, stride);
            let n = slot_bytes(e[oi as int]).len() as int;
            assert(n / stride == nv) by (nonlinear_arith)
                requires n == nv * stride, stride > 0;
            lemma_removed_wf(e, oi as int, stride);
        }
        let nvb = (location.num_vertices * self.layout.stride()) as usize;
        drain_range(&mut self.vertices, off.vertices, off.vertices + nvb);
        self.vertices_dirty = true;
        drain_range(&mut self.indices, off.indices, off.indices + ni);
        self.indices_dirty = true;
        proof {
            assert(self.vertices@ == flat_bytes(u));
        }
        if self.offsets.len() - 1 == oi {
            self.offsets.pop();
            proof {
                assert forall|k: int| 0 <= k < self.offsets@.len() implies
                    #[trigger] self.offsets@[k].vertices == bytes_before(u, k)
                    && self.offsets@[k].indices == indices_before(u, k) by {
                    lemma_before_update(e, oi as int, None, k, stride);
                    assert(self.offsets@[k] == old(self).offsets@[k]);
                }
                lemma_drop_last_is_clear(e, stride);
                assert(f.skip(off.indices + ni) =~= Seq::<u32>::empty());
                assert(shift(f.skip(off.indices + ni), -(nv as int)) =~= Seq::<u32>::empty());
                assert(self.indices@ =~= f.take(off.indices as int) + shift(f.skip(off.indices + ni), -(nv as int)));
            }
        } else {
            let ghost g = self.indices@;
            let mut p: usize = off.indices;
            while p < self.indices.len()
                invariant
                    g == f.take(off.indices as int) + f.skip(off.indices + ni),
                    f.len() >= off.indices + ni,
                    off.indices <= p <= g.len(),
                    self.indices@.len() == g.len(),
                    forall|q: int| off.indices + ni <= q < f.len() ==> #[trigger] f[q] >= nv,
                    self.offsets@ == old(self).offsets@,
                    self.vertices@ == flat_bytes(u),
                    self.textures@ == b.textures,
                    self.layout@ == b.layout,
                    self.id == b.id,
                    self.z_index == b.z_index,
                    self.shader == b.shader,
                    self.slots == old(self).slots,
                    self.vertices_dirty,
                    self.indices_dirty,

                    forall|q: int| 0 <= q < g.len() ==> #[trigger] self.indices@[q] == if q < p {
                        if q < off.indices { g[q] } else { (g[q] - nv) as u32 }
                    } else {
                        g[q]
                    },
                decreases g.len() - p,
            {
                assert(g[p as int] == f[p + ni]);
                let x = self.indices[p];
                self.indices.set(p, x - nv);
                p = p + 1;
            }
            proof {
                assert(self.indices@ =~= f.take(off.indices as int) + shift(f.skip(off.indices + ni), -(nv as int)));
                assert(self.indices@ == flat_indices(u, stride));
            }
            let mut j: usize = oi + 1;
            while j < self.offsets.len()
                invariant
                    self.offsets@.len() == e.len(),
                    oi + 1 <= j <= e.len(),
                    0 <= oi < e.len(),
                    nvb == slot_bytes(e[oi as int]).len(),
                    ni == slot_indices(e[oi as int]).len(),
                    forall|k: int| 0 <= k < e.len() ==> #[trigger] self.offsets@[k] == if oi < k < j {
                        Offset { vertices: (old(self).offsets@[k].vertices - nvb) as usize, indices: (old(self).offsets@[k].indices - ni) as usize }
                    } else {
                        old(self).offsets@[k]
                    },
                    forall|k: int| 0 <= k < e.len() ==>
                        #[trigger] old(self).offsets@[k].vertices == bytes_before(e, k)
                        && old(self).offsets@[k].indices == indices_before(e, k),
                    stride > 0,
                    bytes_before(e, oi + 1) >= nvb,
                    indices_before(e, oi + 1) >= ni,
                    self.indices@ == flat_indices(u, stride),
                    self.vertices@ == flat_bytes(u),
                    self.textures@ == b.textures,
                    self.layout@ == b.layout,
                    self.id == b.id,
                    self.z_index == b.z_index,
                    self.shader == b.shader,
                    self.slots == old(self).slots,
                    self.vertices_dirty,
                    self.indices_dirty,
                decreases e.len() - j,
            {
                let o = self.offsets[j];
                proof {
                    lemma_before_monotone(e, oi + 1, j as int, stride);
                }
                self.offsets.set(j, Offset::new(o.vertices - nvb, o.indices - ni));
                j = j + 1;
            }
            proof {
                assert forall|k: int| 0 <= k < self.offsets@.len() implies
                    #[trigger] self.offsets@[k].vertices == bytes_before(u, k)
                    && self.offsets@[k].indices == indices_before(u, k) by {
                    lemma_before_update(e, oi as int, None, k, stride);
                    if k > oi {
                        lemma_before_monotone(e, oi + 1, k, stride);
                    }
                }
            }
        }
        self.slots = Ghost(removed(e, oi as int));
        proof {
            let e2 = removed(e, oi as int);
            if oi == e.len() - 1 {
                lemma_drop_last_is_clear(e, stride);
            }
            assert(self.indices@ == flat_indices(e2, stride));
            assert(self.vertices@ == flat_bytes(e2));
            assert forall|k: int| 0 <= k < self.offsets@.len() implies
                #[trigger] self.offsets@[k].vertices == bytes_before(e2, k)
                && self.offsets@[k].indices == indices_before(e2, k) by {
                assert(bytes_before(e2, k) == bytes_before(u, k));
            }
            lemma_flat_len(e2, stride);
        }
    }
}

} // verus!

verus! {

impl Batch {
    /// Replaces the item's vertex bytes (its indices stay), writing into them
    /// the slot of the texture, if one is given. Fails, changing nothing, if
    /// the new bytes are not as many as the old ones, or if the batch does not
    /// hold the texture.
    pub fn modify_vertices(&mut self, location: &VertexLocation, data: &mut Vec<u8>, texture: Option<RenderID>) -> (r: Result<(), RenderError>)
        requires
            old(self).wf(),
            holds(old(self)@, location@),
        ensures
            final(self).wf(),
            (r, final(self)@, final(data)@) == modified(old(self)@, location@, old(data)@, texture),
    {
        let ghost b = self@;
        let ghost e = b.slots;
        let ghost stride = b.layout.1 as int;
        let oi = location.offset_index;
        proof {
            lemma_flat_len(e, stride);
            lemma_before_monotone(e, oi + 1, e.len() as int, stride);
            lemma_before_monotone(e, 0, oi as int, stride);
            assert(bytes_before(e, oi + 1) == bytes_before(e, oi as int) + location.num_vertices * stride);
        }
        let num_vert_bytes = (location.num_vertices * self.layout.stride()) as usize;
        if num_vert_bytes != data.len() {
            return Err(RenderError(RenderErrorKind::UnexpectedVerticesLength { got: data.len(), expected: num_vert_bytes }));
        }
        if let Some(t) = texture {
            match position(&self.textures, t) {
                None => {
                    return Err(RenderError(RenderErrorKind::MissingTextureSlot(t)));
                },
                Some(slot) => {
                    proof {
                        lemma_index_of_unique(b.textures, slot as int);
                        assert((num_vert_bytes as int) % stride == 0) by (nonlinear_arith)
                            requires num_vert_bytes == location.num_vertices * stride, stride > 0;
                    }
                    patch_texture_id(data, &self.layout, slot as u32);
                },
            }
        }
        let ghost bytes = data@;
        let ghost e2 = e.update(oi as int, Some((bytes, slot_indices(e[oi as int]))));
        let offset = self.offsets[oi];
        proof {
            lemma_flat_bytes_update(e, oi as int, Some((bytes, slot_indices(e[oi as int]))), stride);
        }
        let mut k: usize = 0;
        while k < num_vert_bytes
            invariant
                0 <= k <= num_vert_bytes,
                num_vert_bytes == data@.len(),
                data@ == bytes,
                offset.vertices + num_vert_bytes <= b.vertices.len(),
                b.vertices.len() <= MAX_ITEM_LEN,
                self.vertices@.len() == b.vertices.len(),
                forall|p: int| 0 <= p < b.vertices.len() ==> #[trigger] self.vertices@[p] == if offset.vertices <= p < offset.vertices + k {
                    bytes[p - offset.vertices]
                } else {
                    b.vertices[p]
                },
                self.indices@ == b.indices,
                self.offsets@ == old(self).offsets@,
                self.textures@ == b.textures,
                self.layout@ == b.layout,
                self.id == b.id,
                self.z_index == b.z_index,
                self.shader == b.shader,
                self.slots == old(self).slots,
                self.indices_dirty == b.indices_dirty,
                self.vertices_dirty == b.vertices_dirty,
            decreases num_vert_bytes - k,
        {
            self.vertices.set(offset.vertices + k, data[k]);
            k = k + 1;
        }
        self.vertices_dirty = true;
        self.slots = Ghost(e2);
        proof {
            let bb = bytes_before(e, oi as int);
            assert(self.vertices@ =~= b.vertices.take(bb) + bytes + b.vertices.skip(bb + num_vert_bytes));
            lemma_same_shape(e, e2, stride);
            assert forall|j: int| 0 <= j < e2.len() implies #[trigger] (slot_bytes(e2[j]).len() as int) % stride == 0 by {
                assert(slot_bytes(e2[j]).len() == slot_bytes(e[j]).len());
            }
            assert forall|j: int, t: int| 0 <= j < e2.len() && 0 <= t < slot_indices(e2[j]).len() implies
                #[trigger] slot_indices(e2[j])[t] + verts_before(e2, j, stride) <= u32::MAX by {
                assert(verts_before(e2, j, stride) == verts_before(e, j, stride));
                assert(slot_indices(e2[j]) == slot_indices(e[j]));
            }
            assert forall|j: int| 0 <= j < self.offsets@.len() implies
                #[trigger] self.offsets@[j].vertices == bytes_before(e2, j)
                && self.offsets@[j].indices == indices_before(e2, j) by {
                lemma_before_update(e, oi as int, Some((bytes, slot_indices(e[oi as int]))), j, stride);
            }
            assert(self.vertices@ == flat_bytes(e2));
            assert(self.indices@ == flat_indices(e2, stride));
            assert(whole_vertices(e2, stride));
            assert(indices_fit(e2, stride));
            assert(self.slots@ == e2);
            assert(self.offsets@.len() == old(self).offsets@.len());
            assert(self.offsets@.len() == self.slots@.len());
            assert(self.inv());
            assert(self@.textures == b.textures);
            assert(self@.layout == b.layout);
        }
        Ok(())
    }
}

} // verus!

verus! {

/// An empty batch for a well-formed, non-empty layout is well formed.
pub proof fn lemma_empty_batch_wf(id: BatchID, d: VertexDataView)
    requires
        layout_wf(d.layout.0, d.layout.1),
        d.layout.0.len() > 0,
        d.layout.1 > 0,
    ensures
        batch_view_wf(empty_batch(id, d)),
{
    let b = empty_batch(id, d);
    assert(b.vertices =~= flat_bytes(b.slots));
    assert(b.indices =~= flat_indices(b.slots, b.layout.1 as int));
}

/// Adding an item that fits keeps a batch well formed.
pub proof fn lemma_added_view_wf(b: BatchView, d: VertexDataView)
    requires
        batch_view_wf(b),
        fits_in(b, d),
        b.slots.len() < usize::MAX,
    ensures
        batch_view_wf(added(b, d)),
{
    let stride = b.layout.1 as int;
    let t2 = textures_with(b.textures, d.texture);
    let bytes = added_bytes(b, d);
    let a = added(b, d);
    let e2 = a.slots;
    lemma_push_slot(b.slots, Some((bytes, d.indices)), stride);
    assert(bytes.len() == d.vertices.len());
    let vb = verts_before(b.slots, b.slots.len() as int, stride);
    let nb = b.vertices.len() as int;
    assert(nb / stride == vb) by (nonlinear_arith)
        requires
            nb == stride * vb,
            stride > 0;
    assert(batch_vertex_count(b) == vb);
    assert(whole_vertices(e2, stride)) by {
        assert forall|j: int| 0 <= j < e2.len() implies #[trigger] (slot_bytes(e2[j]).len() as int) % stride == 0 by {
            if j < b.slots.len() {
                assert(e2[j] == b.slots[j]);
            }
        }
    }
    assert(indices_fit(e2, stride)) by {
        assert forall|j: int, t: int| 0 <= j < e2.len() && 0 <= t < slot_indices(e2[j]).len() implies
            #[trigger] slot_indices(e2[j])[t] + verts_before(e2, j, stride) <= u32::MAX by {
            assert(verts_before(e2, j, stride) == verts_before(b.slots, j, stride));
            if j < b.slots.len() {
                assert(e2[j] == b.slots[j]);
            }
        }
    }
    if let Some(t) = d.texture {
        if !b.textures.contains(t) {
            assert forall|i: int, j: int| 0 <= i < j < t2.len() implies t2[i] != t2[j] by {
                if j == t2.len() - 1 {
                    assert(b.textures[i] != t);
                }
            }
        }
    }
}

/// Removing a held item keeps a batch well formed.
/// Removing an item never adds vertex bytes or indices to its batch.
pub proof fn lemma_removed_shrinks(b: BatchView, oi: int)
    requires
        batch_view_wf(b),
        0 <= oi < b.slots.len(),
    ensures
        removed_from(b, oi).vertices.len() <= b.vertices.len(),
        removed_from(b, oi).indices.len() <= b.indices.len(),
{
    let stride = b.layout.1 as int;
    let e = b.slots;
    lemma_flat_bytes_update(e, oi, None, stride);
    lemma_flat_indices_remove(e, oi, stride);
    lemma_flat_len(e, stride);
    lemma_before_monotone(e, oi + 1, e.len() as int, stride);
    lemma_before_monotone(e, 0, oi, stride);
    assert(bytes_before(e, oi + 1) == bytes_before(e, oi) + slot_bytes(e[oi]).len());
    assert(indices_before(e, oi + 1) == indices_before(e, oi) + slot_indices(e[oi]).len());
    if oi == e.len() - 1 {
        lemma_drop_last_is_clear(e, stride);
    }
    let f = flat_indices(e, stride);
    let ib = indices_before(e, oi);
    let m = slot_indices(e[oi]).len() as int;
    let nv = (slot_bytes(e[oi]).len() as int) / stride;
    assert(shift(f.skip(ib + m), -nv).len() == f.skip(ib + m).len());
}

/// Replacing an item's vertex bytes leaves its batch's sizes unchanged.
pub proof fn lemma_modified_keeps_sizes(b: BatchView, loc: VertexLocationView, data: Seq<u8>, texture: Option<RenderID>)
    requires
        batch_view_wf(b),
        holds(b, loc),
    ensures
        modified(b, loc, data, texture).1.vertices.len() == b.vertices.len(),
        modified(b, loc, data, texture).1.indices.len() == b.indices.len(),
{
    let stride = b.layout.1 as int;
    let e = b.slots;
    let oi = loc.offset_index as int;
    if loc.num_vertices * b.layout.1 == data.len()
        && !(texture is Some && !b.textures.contains(texture->0)) {
        let bytes = with_slot(data, b.layout, b.textures, texture);
        assert(bytes.len() == data.len());
        lemma_flat_bytes_update(e, oi, Some((bytes, slot_indices(e[oi]))), stride);
        lemma_flat_len(e, stride);
        lemma_before_monotone(e, oi + 1, e.len() as int, stride);
        lemma_before_monotone(e, 0, oi, stride);
        assert(bytes_before(e, oi + 1) == bytes_before(e, oi) + slot_bytes(e[oi]).len());
        assert(slot_bytes(e[oi]).len() == data.len());
    }
}

pub proof fn lemma_removed_view_wf(b: BatchView, oi: int)
    requires
        batch_view_wf(b),
        0 <= oi < b.slots.len(),
    ensures
        batch_view_wf(removed_from(b, oi)),
{
    let stride = b.layout.1 as int;
    let e = b.slots;
    lemma_removed_wf(e, oi, stride);
    lemma_flat_bytes_update(e, oi, None, stride);
    lemma_flat_indices_remove(e, oi, stride);
    lemma_flat_len(e, stride);
    lemma_before_monotone(e, oi + 1, e.len() as int, stride);
    lemma_before_monotone(e, 0, oi, stride);
    assert(bytes_before(e, oi + 1) == bytes_before(e, oi) + slot_bytes(e[oi]).len());
    assert(indices_before(e, oi + 1) == indices_before(e, oi) + slot_indices(e[oi]).len());
    if oi == e.len() - 1 {
        lemma_drop_last_is_clear(e, stride);
    }
}

} // verus!
