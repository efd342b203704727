//! What the renderer's operations keep and undo, stated over the items it
//! holds.

use vstd::prelude::*;
use crate::renderer::batch::{
    BatchView, BatchID, VertexDataView, VertexLocationView, Slot, added, added_bytes, added_location,
    empty_batch, removed_from, removed, holds, space_for, batch_view_wf, slot_bytes, slot_indices,
    modified, fits_in, verts_before, law_space_for_is_the_batch_limit, lemma_removed_shrinks, lemma_modified_keeps_sizes, lemma_added_view_wf, lemma_empty_batch_wf, lemma_removed_view_wf, flat_bytes, flat_indices, lemma_flat_len, lemma_before_monotone, bytes_before, indices_before,
};
use crate::renderer::renderer_core::{
    RendererView, renderer_added, renderer_add_location, renderer_added_bytes, renderer_removed,
    receiving_batch, first_with_space, insert_pos, is_insert_pos, find_batch, batches_sorted, ids_valid,
    item_ok, location_ok, deletable, lemma_first_with_space_props, lemma_insert_pos_exists, renderer_modified,
    lemma_add_places, placed,
};
use crate::renderer::RenderID;

verus! {

/// A renderer view is well formed when its batches are, they are ordered by
/// z-index and their ids are distinct and handed out.
pub open spec fn renderer_view_wf(r: RendererView) -> bool {
    &&& forall|i: int| 0 <= i < r.batches.len() ==> #[trigger] batch_view_wf(r.batches[i])
    &&& batches_sorted(r.batches)
    &&& ids_valid(r.batches, r.batch_counter)
}

/// Every batch has room for one more slot (a vector of slots cannot hold
/// more than `usize::MAX` of them).
pub open spec fn slots_bounded(bs: Seq<BatchView>) -> bool {
    forall|i: int| 0 <= i < bs.len() ==> #[trigger] bs[i].slots.len() < usize::MAX
}

/// What the renderer holds at slot `oi` of the batch with id `id`.
pub open spec fn item_at(bs: Seq<BatchView>, id: BatchID, oi: int) -> Slot {
    match find_batch(bs, id) {
        Some(i) => if 0 <= oi < bs[i].slots.len() { bs[i].slots[oi] } else { None },
        None => None,
    }
}

/// No item the renderer holds is empty (without vertex bytes and indices).
pub open spec fn no_empty_items(bs: Seq<BatchView>) -> bool {
    forall|i: int, j: int| 0 <= i < bs.len() && 0 <= j < bs[i].slots.len() && #[trigger] bs[i].slots[j] is Some
        ==> slot_bytes(bs[i].slots[j]).len() > 0 || slot_indices(bs[i].slots[j]).len() > 0
}

proof fn lemma_find(bs: Seq<BatchView>, id: BatchID, i: int)
    requires
        forall|a: int, c: int| 0 <= a < bs.len() && 0 <= c < bs.len() && a != c ==> bs[a].id != bs[c].id,
        0 <= i < bs.len(),
        bs[i].id == id,
    ensures
        find_batch(bs, id) == Some(i),
{
    let c = choose|k: int| 0 <= k < bs.len() && bs[k].id == id;
    assert(0 <= c < bs.len() && bs[c].id == id);
}

proof fn lemma_find_none(bs: Seq<BatchView>, id: BatchID)
    requires
        forall|k: int| 0 <= k < bs.len() ==> bs[k].id != id,
    ensures
        find_batch(bs, id) is None,
{
}

proof fn lemma_find_some(bs: Seq<BatchView>, id: BatchID)
    ensures
        find_batch(bs, id) matches Some(i) ==> 0 <= i < bs.len() && bs[i].id == id,
        find_batch(bs, id) is None ==> forall|k: int| 0 <= k < bs.len() ==> bs[k].id != id,
{
}

/// Replacing a batch by one with the same id changes only the items of that
/// batch.
proof fn lemma_item_at_update(bs: Seq<BatchView>, i: int, nb: BatchView, id: BatchID, oi: int)
    requires
        forall|a: int, c: int| 0 <= a < bs.len() && 0 <= c < bs.len() && a != c ==> bs[a].id != bs[c].id,
        0 <= i < bs.len(),
        nb.id == bs[i].id,
    ensures
        id != bs[i].id ==> item_at(bs.update(i, nb), id, oi) == item_at(bs, id, oi),
        id == bs[i].id ==> item_at(bs.update(i, nb), id, oi) == (if 0 <= oi < nb.slots.len() { nb.slots[oi] } else { None }),
{
    let u = bs.update(i, nb);
    lemma_find_some(bs, id);
    if id == bs[i].id {
        lemma_find(u, id, i);
    } else {
        match find_batch(bs, id) {
            Some(k) => {
                lemma_find(u, id, k);
            },
            None => {
                lemma_find_none(u, id);
            },
        }
    }
}

/// The items after an item is added: the new one where the location says,
/// everything else as before.
pub proof fn law_add_places_item(r: RendererView, d: VertexDataView)
    requires
        renderer_view_wf(r),
        item_ok(d),
        r.batch_counter < u64::MAX,
    ensures
        ({
            let r1 = renderer_added(r, d);
            let loc = renderer_add_location(r, d);
            let b = receiving_batch(r, d);
            &&& item_at(r1.batches, loc.batch, loc.offset_index as int) == Some((renderer_added_bytes(r, d), d.indices))
            &&& item_at(r.batches, loc.batch, loc.offset_index as int) is None
            &&& forall|id: BatchID, oi: int| !(id == loc.batch && oi == loc.offset_index) ==>
                    #[trigger] item_at(r1.batches, id, oi) == item_at(r.batches, id, oi)
            &&& b.z_index == d.z_index && b.shader == d.shader && b.layout == d.layout
        }),
{
    let bs = r.batches;
    let r1 = renderer_added(r, d);
    let loc = renderer_add_location(r, d);
    lemma_first_with_space_props(bs, d);
    match first_with_space(bs, d) {
        Some(i) => {
            let b = bs[i];
            assert(batch_view_wf(b));
            let a = added(b, d);
            lemma_item_at_update(bs, i, a, loc.batch, loc.offset_index as int);
            assert(loc.offset_index == b.slots.len());
            assert forall|id: BatchID, oi: int| !(id == loc.batch && oi == loc.offset_index) implies
                #[trigger] item_at(r1.batches, id, oi) == item_at(bs, id, oi) by {
                lemma_item_at_update(bs, i, a, id, oi);
                lemma_find(bs, b.id, i);
                if id == b.id && 0 <= oi < a.slots.len() {
                    assert(oi < b.slots.len());
                    assert(a.slots[oi] == b.slots[oi]);
                }
            }
            lemma_find(bs, b.id, i);
        },
        None => {
            let nb = added(empty_batch((r.batch_counter + 1) as u64, d), d);
            lemma_insert_pos_exists(bs, d.z_index);
            let p = insert_pos(bs, d.z_index);
            let u = bs.insert(p, nb);
            assert(nb.id == r.batch_counter + 1);
            assert forall|k: int| 0 <= k < bs.len() implies bs[k].id != nb.id by {
                assert(bs[k].id <= r.batch_counter);
            }
            assert forall|a: int, c: int| 0 <= a < u.len() && 0 <= c < u.len() && a != c implies u[a].id != u[c].id by {
                let a2 = if a < p { a } else { a - 1 };
                let c2 = if c < p { c } else { c - 1 };
                if a != p { assert(u[a] == bs[a2]); }
                if c != p { assert(u[c] == bs[c2]); }
            }
            lemma_find(u, nb.id, p);
            lemma_find_none(bs, nb.id);
            assert forall|id: BatchID, oi: int| !(id == loc.batch && oi == loc.offset_index) implies
                #[trigger] item_at(u, id, oi) == item_at(bs, id, oi) by {
                lemma_find_some(bs, id);
                if id == nb.id {
                    assert(nb.slots.len() == 1);
                } else {
                    match find_batch(bs, id) {
                        Some(k) => {
                            let k2 = if k < p { k } else { k + 1 };
                            assert(u[k2] == bs[k]);
                            lemma_find(u, id, k2);
                        },
                        None => {
                            assert forall|k: int| 0 <= k < u.len() implies u[k].id != id by {
                                if k < p { assert(u[k] == bs[k]); } else if k > p { assert(u[k] == bs[k - 1]); }
                            }
                            lemma_find_none(u, id);
                        },
                    }
                }
            }
        },
    }
}

/// Adding an item keeps the renderer well formed, and the renderer holds
/// the item where the location says.
pub proof fn lemma_added_wf(r: RendererView, d: VertexDataView)
    requires
        renderer_view_wf(r),
        slots_bounded(r.batches),
        item_ok(d),
        r.batch_counter < u64::MAX,
    ensures
        renderer_view_wf(renderer_added(r, d)),
        location_ok(renderer_added(r, d).batches, renderer_add_location(r, d)),
{
    let bs = r.batches;
    let r1 = renderer_added(r, d);
    let nbs = r1.batches;
    let loc = renderer_add_location(r, d);
    lemma_first_with_space_props(bs, d);
    match first_with_space(bs, d) {
        Some(i) => {
            let b = bs[i];
            assert(batch_view_wf(b));
            assert forall|t: int| 0 <= t < d.indices.len() implies #[trigger] d.indices[t]
                + crate::renderer::batch::batch_vertex_count(b) <= u32::MAX by {
                assert(d.indices[t] <= crate::renderer::batch::MAX_ITEM_LEN);
                assert((b.vertices.len() as int) / (b.layout.1 as int) <= b.vertices.len()) by (nonlinear_arith)
                    requires b.layout.1 > 0;
            }
            assert(fits_in(b, d));
            assert(b.slots.len() < usize::MAX);
            lemma_added_view_wf(b, d);
            assert forall|k: int| 0 <= k < nbs.len() implies #[trigger] batch_view_wf(nbs[k]) by {
                if k != i { assert(nbs[k] == bs[k]); }
            }
            assert forall|k: int| 0 <= k < nbs.len() implies 0 < #[trigger] nbs[k].id <= r1.batch_counter by {
                assert(nbs[k].id == bs[k].id);
            }
        },
        None => {
            let nb0 = empty_batch((r.batch_counter + 1) as u64, d);
            lemma_empty_batch_wf((r.batch_counter + 1) as u64, d);
            assert forall|t: int| 0 <= t < d.indices.len() implies #[trigger] d.indices[t]
                + crate::renderer::batch::batch_vertex_count(nb0) <= u32::MAX by {
                assert(d.indices[t] <= crate::renderer::batch::MAX_ITEM_LEN);
                assert(0int / (nb0.layout.1 as int) == 0) by (nonlinear_arith) requires nb0.layout.1 > 0;
            }
            assert(fits_in(nb0, d));
            lemma_added_view_wf(nb0, d);
            let nb = added(nb0, d);
            lemma_insert_pos_exists(bs, d.z_index);
            let p = insert_pos(bs, d.z_index);
            assert(nbs == bs.insert(p, nb));
            assert forall|k: int| 0 <= k < nbs.len() implies #[trigger] batch_view_wf(nbs[k]) by {
                if k < p { assert(nbs[k] == bs[k]); } else if k > p { assert(nbs[k] == bs[k - 1]); }
            }
            assert forall|a: int, c: int| 0 <= a < c < nbs.len() implies nbs[a].z_index <= nbs[c].z_index by {
                if a != p { if a < p { assert(nbs[a] == bs[a]); } else { assert(nbs[a] == bs[a - 1]); } }
                if c != p { if c < p { assert(nbs[c] == bs[c]); } else { assert(nbs[c] == bs[c - 1]); } }
            }
            assert forall|a: int, c: int| 0 <= a < nbs.len() && 0 <= c < nbs.len() && a != c implies nbs[a].id != nbs[c].id by {
                if a != p { if a < p { assert(nbs[a] == bs[a]); } else { assert(nbs[a] == bs[a - 1]); } }
                if c != p { if c < p { assert(nbs[c] == bs[c]); } else { assert(nbs[c] == bs[c - 1]); } }
                if a == p || c == p {
                    if a != p { assert(nbs[a].id <= r.batch_counter); }
                    if c != p { assert(nbs[c].id <= r.batch_counter); }
                }
            }
            assert forall|k: int| 0 <= k < nbs.len() implies 0 < #[trigger] nbs[k].id <= r1.batch_counter by {
                if k < p { assert(nbs[k] == bs[k]); } else if k > p { assert(nbs[k] == bs[k - 1]); }
            }
        },
    }
    lemma_add_places(bs, r.batch_counter, d, nbs, loc);
    let w = choose|w: int| 0 <= w < nbs.len() && nbs[w].id == loc.batch && #[trigger] holds(nbs[w], loc);
    assert forall|k: int| 0 <= k < nbs.len() && nbs[k].id == loc.batch implies holds(#[trigger] nbs[k], loc) by {
        if k != w {
            assert(nbs[k].id != nbs[w].id);
        }
    }
}

/// In slots without vertex bytes and indices every slot is empty.
proof fn lemma_empty_slots(e: Seq<Slot>, stride: int, j: int)
    requires
        stride > 0,
        flat_bytes(e).len() == 0,
        flat_indices(e, stride).len() == 0,
        0 <= j < e.len(),
    ensures
        slot_bytes(e[j]).len() == 0,
        slot_indices(e[j]).len() == 0,
{
    lemma_flat_len(e, stride);
    lemma_before_monotone(e, j + 1, e.len() as int, stride);
    lemma_before_monotone(e, 0, j, stride);
}

/// After an item is removed the renderer no longer holds it, and every other
/// item stays, unless it was empty and shared the dropped batch.
pub proof fn law_remove_forgets_item(r: RendererView, loc: VertexLocationView)
    requires
        renderer_view_wf(r),
        location_ok(r.batches, loc),
    ensures
        ({
            let r2 = renderer_removed(r, loc);
            &&& item_at(r2.batches, loc.batch, loc.offset_index as int) is None
            &&& forall|id: BatchID, oi: int| !(id == loc.batch && oi == loc.offset_index) ==>
                    #[trigger] item_at(r2.batches, id, oi) == item_at(r.batches, id, oi)
                    || (id == loc.batch && item_at(r2.batches, id, oi) is None
                        && slot_bytes(item_at(r.batches, id, oi)).len() == 0
                        && slot_indices(item_at(r.batches, id, oi)).len() == 0)
            &&& renderer_view_wf(r2)
        }),
{
    let bs = r.batches;
    let r2 = renderer_removed(r, loc);
    lemma_find_some(bs, loc.batch);
    match find_batch(bs, loc.batch) {
        None => {},
        Some(i) => {
            let b = bs[i];
            assert(batch_view_wf(b));
            assert(holds(b, loc));
            let oi = loc.offset_index as int;
            let nb = removed_from(b, oi);
            let stride = b.layout.1 as int;
            if deletable(nb) {
                let u = bs.remove(i);
                assert forall|a: int, c: int| 0 <= a < u.len() && 0 <= c < u.len() && a != c implies u[a].id != u[c].id by {
                    let a2 = if a < i { a } else { a + 1 };
                    let c2 = if c < i { c } else { c + 1 };
                    assert(u[a] == bs[a2]);
                    assert(u[c] == bs[c2]);
                }
                assert forall|k: int| 0 <= k < u.len() implies u[k].id != loc.batch by {
                    let k2 = if k < i { k } else { k + 1 };
                    assert(u[k] == bs[k2]);
                }
                lemma_find_none(u, loc.batch);
                assert forall|id: BatchID, oi2: int| !(id == loc.batch && oi2 == loc.offset_index) implies
                    #[trigger] item_at(u, id, oi2) == item_at(bs, id, oi2)
                    || (id == loc.batch && item_at(u, id, oi2) is None
                        && slot_bytes(item_at(bs, id, oi2)).len() == 0
                        && slot_indices(item_at(bs, id, oi2)).len() == 0) by {
                    lemma_find_some(bs, id);
                    if id == loc.batch {
                        lemma_find(bs, id, i);
                        if 0 <= oi2 < b.slots.len() && oi2 != oi {
                            let e2 = removed(b.slots, oi);
                            if oi2 < e2.len() {
                                assert(e2[oi2] == b.slots[oi2]);
                                lemma_empty_slots(e2, stride, oi2);
                            }
                        }
                    } else {
                        match find_batch(bs, id) {
                            Some(k) => {
                                let k2 = if k < i { k } else { k - 1 };
                                assert(u[k2] == bs[k]);
                                lemma_find(u, id, k2);
                            },
                            None => {
                                assert forall|k: int| 0 <= k < u.len() implies u[k].id != id by {
                                    let k2 = if k < i { k } else { k + 1 };
                                    assert(u[k] == bs[k2]);
                                }
                                lemma_find_none(u, id);
                            },
                        }
                    }
                }
                assert forall|k: int| 0 <= k < u.len() implies #[trigger] batch_view_wf(u[k]) by {
                    let k2 = if k < i { k } else { k + 1 };
                    assert(u[k] == bs[k2]);
                }
                assert forall|a: int, c: int| 0 <= a < c < u.len() implies u[a].z_index <= u[c].z_index by {
                    let a2 = if a < i { a } else { a + 1 };
                    let c2 = if c < i { c } else { c + 1 };
                    assert(u[a] == bs[a2]);
                    assert(u[c] == bs[c2]);
                }
                assert forall|k: int| 0 <= k < u.len() implies 0 < #[trigger] u[k].id <= r.batch_counter by {
                    let k2 = if k < i { k } else { k + 1 };
                    assert(u[k] == bs[k2]);
                }
            } else {
                let u = bs.update(i, nb);
                lemma_item_at_update(bs, i, nb, loc.batch, oi);
                assert forall|id: BatchID, oi2: int| !(id == loc.batch && oi2 == loc.offset_index) implies
                    #[trigger] item_at(u, id, oi2) == item_at(bs, id, oi2) by {
                    lemma_item_at_update(bs, i, nb, id, oi2);
                    if id == loc.batch {
                        lemma_find(bs, id, i);
                        let e2 = removed(b.slots, oi);
                        if 0 <= oi2 < e2.len() {
                            assert(e2[oi2] == b.slots[oi2]);
                        }
                    }
                }
                assert(batch_view_wf(nb)) by {
                    lemma_removed_view_wf(b, oi);
                }
                assert forall|k: int| 0 <= k < u.len() implies #[trigger] batch_view_wf(u[k]) by {
                    if k != i { assert(u[k] == bs[k]); }
                }
                assert forall|k: int| 0 <= k < u.len() implies 0 < #[trigger] u[k].id <= r.batch_counter by {
                    assert(u[k].id == bs[k].id);
                }
            }
        },
    }
}

/// Adding an item and removing it again gives back the items the renderer
/// held, if none of them was empty.
pub proof fn law_add_then_remove_restores_items(r: RendererView, d: VertexDataView)
    requires
        renderer_view_wf(r),
        slots_bounded(r.batches),
        item_ok(d),
        r.batch_counter < u64::MAX,
        no_empty_items(r.batches),
    ensures
        ({
            let r1 = renderer_added(r, d);
            let r2 = renderer_removed(r1, renderer_add_location(r, d));
            forall|id: BatchID, oi: int| #[trigger] item_at(r2.batches, id, oi) == item_at(r.batches, id, oi)
        }),
{
    let r1 = renderer_added(r, d);
    let loc = renderer_add_location(r, d);
    let r2 = renderer_removed(r1, loc);
    law_add_places_item(r, d);
    lemma_added_wf(r, d);
    law_remove_forgets_item(r1, loc);
    assert forall|id: BatchID, oi: int| #[trigger] item_at(r2.batches, id, oi) == item_at(r.batches, id, oi) by {
        if !(id == loc.batch && oi == loc.offset_index) {
            assert(item_at(r1.batches, id, oi) == item_at(r.batches, id, oi));
            lemma_find_some(r.batches, id);
            if let Some(k) = find_batch(r.batches, id) {
                if 0 <= oi < r.batches[k].slots.len() && r.batches[k].slots[oi] is Some {
                    assert(slot_bytes(r.batches[k].slots[oi]).len() > 0 || slot_indices(r.batches[k].slots[oi]).len() > 0);
                }
            }
        }
    }
}

/// Replacing an item's vertex bytes changes that item only, keeping its
/// indices; a failed replacement changes nothing.
pub proof fn law_modify_touches_only_item(r: RendererView, loc: VertexLocationView, data: Seq<u8>, texture: Option<RenderID>)
    requires
        renderer_view_wf(r),
        location_ok(r.batches, loc),
    ensures
        ({
            let m = renderer_modified(r, loc, data, texture);
            let oi = loc.offset_index as int;
            &&& m.0 is Err ==> m.1 == r
            &&& m.0 is Ok ==> {
                &&& item_at(m.1.batches, loc.batch, oi) == Some((m.2, slot_indices(item_at(r.batches, loc.batch, oi))))
                &&& item_at(r.batches, loc.batch, oi) is Some
                &&& forall|id: BatchID, oi2: int| !(id == loc.batch && oi2 == oi) ==>
                        #[trigger] item_at(m.1.batches, id, oi2) == item_at(r.batches, id, oi2)
            }
        }),
{
    let bs = r.batches;
    let m = renderer_modified(r, loc, data, texture);
    let oi = loc.offset_index as int;
    lemma_find_some(bs, loc.batch);
    match find_batch(bs, loc.batch) {
        None => {},
        Some(i) => {
            let b = bs[i];
            assert(holds(b, loc));
            let mb = modified(b, loc, data, texture);
            if mb.0 is Ok {
                lemma_item_at_update(bs, i, mb.1, loc.batch, oi);
                lemma_find(bs, loc.batch, i);
                assert forall|id: BatchID, oi2: int| !(id == loc.batch && oi2 == oi) implies
                    #[trigger] item_at(m.1.batches, id, oi2) == item_at(bs, id, oi2) by {
                    lemma_item_at_update(bs, i, mb.1, id, oi2);
                }
            } else {
                assert(bs.update(i, mb.1) =~= bs);
                assert(m.1 =~= r);
            }
        },
    }
}

/// Removing the item a batch took last gives back the batch's items, vertex
/// bytes and indices as they were before it was added; the batch keeps the
/// item's texture among its textures.
pub proof fn law_batch_add_then_remove_last(b: BatchView, d: VertexDataView)
    requires
        batch_view_wf(b),
    ensures
        ({
            let after = removed_from(added(b, d), added_location(b, d).offset_index as int);
            &&& after.slots == b.slots
            &&& after.vertices == b.vertices
            &&& after.indices == b.indices
            &&& after.textures == crate::renderer::batch::textures_with(b.textures, d.texture)
        }),
{
    let a = added(b, d);
    assert(a.slots.drop_last() =~= b.slots);
}

proof fn lemma_cleared_verts_before(e: Seq<Slot>, oi: int, stride: int, j: int)
    requires
        0 <= oi < e.len(),
        0 <= j <= e.len(),
        stride > 0,
    ensures
        verts_before(e.update(oi, None), j, stride) == verts_before(e, j, stride)
            - if j > oi { (slot_bytes(e[oi]).len() as int) / stride } else { 0 },
    decreases j,
{
    if j > 0 {
        lemma_cleared_verts_before(e, oi, stride, j - 1);
        assert((slot_bytes(None::<(Seq<u8>, Seq<u32>)>).len() as int) / stride == 0);
    }
}

/// Removing an item that is not the batch's last clears its slot and keeps
/// every other item as it was; the items after it start that many vertices
/// earlier, so their stored indices are lowered by the removed item's
/// vertex count.
pub proof fn law_batch_remove_inner_item(b: BatchView, oi: int, j: int)
    requires
        batch_view_wf(b),
        0 <= oi < b.slots.len() - 1,
        0 <= j <= b.slots.len(),
    ensures
        removed_from(b, oi).slots == b.slots.update(oi, None),
        verts_before(removed_from(b, oi).slots, j, b.layout.1 as int) == verts_before(b.slots, j, b.layout.1 as int)
            - if j > oi { (slot_bytes(b.slots[oi]).len() as int) / (b.layout.1 as int) } else { 0 },
{
    lemma_cleared_verts_before(b.slots, oi, b.layout.1 as int, j);
}

/// Batches stay below the batch limits: when every batch holds fewer than
/// 6000 vertex bytes and 6000 indices, so does every batch once an item below
/// those limits is added, since an item joins a batch only while both stay
/// below them and otherwise starts a batch of its own.
pub proof fn law_add_keeps_batches_below_limits(r: RendererView, d: VertexDataView)
    requires
        renderer_view_wf(r),
        forall|i: int| 0 <= i < r.batches.len() ==>
            #[trigger] r.batches[i].vertices.len() < 6000 && r.batches[i].indices.len() < 6000,
        d.vertices.len() < 6000,
        d.indices.len() < 6000,
    ensures
        forall|i: int| 0 <= i < renderer_added(r, d).batches.len() ==>
            #[trigger] renderer_added(r, d).batches[i].vertices.len() < 6000
            && renderer_added(r, d).batches[i].indices.len() < 6000,
{
    lemma_first_with_space_props(r.batches, d);
    let r2 = renderer_added(r, d);
    match first_with_space(r.batches, d) {
        Some(k) => {
            law_space_for_is_the_batch_limit(r.batches[k], d);
            let nb = added(r.batches[k], d);
            assert(added_bytes(r.batches[k], d).len() == d.vertices.len());
            assert(nb.vertices.len() == r.batches[k].vertices.len() + d.vertices.len());
            assert(nb.indices.len() == r.batches[k].indices.len() + d.indices.len());
            assert(r2.batches == r.batches.update(k, nb));
        },
        None => {
            lemma_insert_pos_exists(r.batches, d.z_index);
            let p = insert_pos(r.batches, d.z_index);
            let e = empty_batch((r.batch_counter + 1) as u64, d);
            let nb = added(e, d);
            assert(added_bytes(e, d).len() == d.vertices.len());
            assert(nb.vertices.len() == d.vertices.len());
            assert(nb.indices.len() == d.indices.len());
            assert(r2.batches == r.batches.insert(p, nb));
            assert forall|i: int| 0 <= i < r2.batches.len() implies
                #[trigger] r2.batches[i].vertices.len() < 6000 && r2.batches[i].indices.len() < 6000 by {
                if i < p {
                    assert(r2.batches[i] == r.batches[i]);
                } else if i == p {
                    assert(r2.batches[i] == nb);
                } else {
                    assert(r2.batches[i] == r.batches[i - 1]);
                }
            }
        },
    }
}

/// Removing an item keeps every batch below the batch limits: no batch gains
/// vertex bytes or indices, and a batch left empty is dropped.
pub proof fn law_remove_keeps_batches_below_limits(r: RendererView, loc: VertexLocationView)
    requires
        renderer_view_wf(r),
        location_ok(r.batches, loc),
        forall|i: int| 0 <= i < r.batches.len() ==>
            #[trigger] r.batches[i].vertices.len() < 6000 && r.batches[i].indices.len() < 6000,
    ensures
        forall|i: int| 0 <= i < renderer_removed(r, loc).batches.len() ==>
            #[trigger] renderer_removed(r, loc).batches[i].vertices.len() < 6000
            && renderer_removed(r, loc).batches[i].indices.len() < 6000,
{
    let bs = r.batches;
    let r2 = renderer_removed(r, loc);
    lemma_find_some(bs, loc.batch);
    match find_batch(bs, loc.batch) {
        None => {},
        Some(i) => {
            let b = bs[i];
            assert(batch_view_wf(b));
            assert(holds(b, loc));
            let nb = removed_from(b, loc.offset_index as int);
            lemma_removed_shrinks(b, loc.offset_index as int);
            if deletable(nb) {
                assert(r2.batches == bs.remove(i));
                assert forall|k: int| 0 <= k < r2.batches.len() implies
                    #[trigger] r2.batches[k].vertices.len() < 6000 && r2.batches[k].indices.len() < 6000 by {
                    let k2 = if k < i { k } else { k + 1 };
                    assert(r2.batches[k] == bs[k2]);
                    assert(bs[k2].vertices.len() < 6000 && bs[k2].indices.len() < 6000);
                }
            } else {
                assert(r2.batches == bs.update(i, nb));
            }
        },
    }
}

/// Replacing an item's vertex bytes keeps every batch below the batch
/// limits: it changes no batch's number of vertex bytes or indices.
pub proof fn law_modify_keeps_batches_below_limits(r: RendererView, loc: VertexLocationView, data: Seq<u8>, texture: Option<RenderID>)
    requires
        renderer_view_wf(r),
        location_ok(r.batches, loc),
        forall|i: int| 0 <= i < r.batches.len() ==>
            #[trigger] r.batches[i].vertices.len() < 6000 && r.batches[i].indices.len() < 6000,
    ensures
        forall|i: int| 0 <= i < renderer_modified(r, loc, data, texture).1.batches.len() ==>
            #[trigger] renderer_modified(r, loc, data, texture).1.batches[i].vertices.len() < 6000
            && renderer_modified(r, loc, data, texture).1.batches[i].indices.len() < 6000,
{
    let bs = r.batches;
    lemma_find_some(bs, loc.batch);
    match find_batch(bs, loc.batch) {
        None => {},
        Some(i) => {
            let b = bs[i];
            assert(batch_view_wf(b));
            assert(holds(b, loc));
            lemma_modified_keeps_sizes(b, loc, data, texture);
            let mb = modified(b, loc, data, texture);
            assert(renderer_modified(r, loc, data, texture).1.batches == bs.update(i, mb.1));
        },
    }
}

} // verus!
