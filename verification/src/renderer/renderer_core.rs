//! The batch manager of a renderer: it groups the vertices of renderable
//! items into batches by z-index, shader, layout and texture, and keeps the
//! batches ordered by z-index.

use vstd::prelude::*;
use crate::renderer::{RenderID, RenderError, RenderErrorKind};
use crate::renderer::buffer::layout_wf;
use crate::renderer::batch::{Batch, BatchView, BatchID, VertexData, VertexDataView, VertexLocation, VertexLocationView, space_for, fits_in, holds, added, added_bytes, added_location, empty_batch, removed_from, modified, MAX_ITEM_LEN, batch_view_wf};

verus! {

/// The renderer once the item is added: to the first batch with space for
/// it, or to a new batch placed by its z-index.
pub open spec fn renderer_added(r: RendererView, d: VertexDataView) -> RendererView {
    match first_with_space(r.batches, d) {
        Some(i) => RendererView { batches: r.batches.update(i, added(r.batches[i], d)), ..r },
        None => RendererView {
            batches: r.batches.insert(insert_pos(r.batches, d.z_index), added(empty_batch((r.batch_counter + 1) as u64, d), d)),
            batch_counter: (r.batch_counter + 1) as u64,
        },
    }
}

/// The batch that receives the item.
pub open spec fn receiving_batch(r: RendererView, d: VertexDataView) -> BatchView {
    match first_with_space(r.batches, d) {
        Some(i) => r.batches[i],
        None => empty_batch((r.batch_counter + 1) as u64, d),
    }
}

/// Where the added item sits.
pub open spec fn renderer_add_location(r: RendererView, d: VertexDataView) -> VertexLocationView {
    added_location(receiving_batch(r, d), d)
}

/// The item's bytes as its batch stores them.
pub open spec fn renderer_added_bytes(r: RendererView, d: VertexDataView) -> Seq<u8> {
    added_bytes(receiving_batch(r, d), d)
}

/// The renderer once the item at the location is removed; its batch is
/// dropped if nothing is left in it.
pub open spec fn renderer_removed(r: RendererView, loc: VertexLocationView) -> RendererView {
    match find_batch(r.batches, loc.batch) {
        None => r,
        Some(i) => {
            let nb = removed_from(r.batches[i], loc.offset_index as int);
            if deletable(nb) {
                RendererView { batches: r.batches.remove(i), ..r }
            } else {
                RendererView { batches: r.batches.update(i, nb), ..r }
            }
        },
    }
}

/// What replacing an item's vertex bytes gives: the result, the renderer
/// and the bytes as patched with the texture slot.
pub open spec fn renderer_modified(r: RendererView, loc: VertexLocationView, data: Seq<u8>, texture: Option<RenderID>)
    -> (Result<(), RenderError>, RendererView, Seq<u8>)
{
    match find_batch(r.batches, loc.batch) {
        None => (Err(RenderError(RenderErrorKind::InvalidBatch(loc.batch))), r, data),
        Some(i) => {
            let m = modified(r.batches[i], loc, data, texture);
            (m.0, RendererView { batches: r.batches.update(i, m.1), ..r }, m.2)
        },
    }
}

pub struct RendererView {
    pub batches: Seq<BatchView>,
    pub batch_counter: BatchID,
}

/// Batches are ordered by z-index.
pub open spec fn batches_sorted(bs: Seq<BatchView>) -> bool {
    forall|i: int, j: int| 0 <= i < j < bs.len() ==> bs[i].z_index <= bs[j].z_index
}

/// No two batches share an id, and every id was handed out already.
pub open spec fn ids_valid(bs: Seq<BatchView>, counter: BatchID) -> bool {
    &&& forall|i: int, j: int| 0 <= i < bs.len() && 0 <= j < bs.len() && i != j ==> bs[i].id != bs[j].id
    &&& forall|i: int| 0 <= i < bs.len() ==> 0 < #[trigger] bs[i].id <= counter
}

/// The first batch that has space for the item, if any.
pub open spec fn first_with_space(bs: Seq<BatchView>, d: VertexDataView) -> Option<int> {
    if exists|i: int| 0 <= i < bs.len() && space_for(bs[i], d) {
        Some(choose|i: int| 0 <= i < bs.len() && space_for(bs[i], d)
            && forall|j: int| 0 <= j < i ==> !space_for(bs[j], d))
    } else {
        None
    }
}

/// Where a new batch of the given z-index goes: behind every batch whose
/// z-index is not larger.
pub open spec fn insert_pos(bs: Seq<BatchView>, z: u8) -> int {
    choose|p: int| #[trigger] is_insert_pos(bs, z, p)
}

pub open spec fn is_insert_pos(bs: Seq<BatchView>, z: u8, p: int) -> bool {
    &&& 0 <= p <= bs.len()
    &&& forall|i: int| 0 <= i < p ==> bs[i].z_index <= z
    &&& forall|i: int| p <= i < bs.len() ==> bs[i].z_index > z
}

/// The batch with the given id, if there is one.
pub open spec fn find_batch(bs: Seq<BatchView>, id: BatchID) -> Option<int> {
    if exists|i: int| 0 <= i < bs.len() && bs[i].id == id {
        Some(choose|i: int| 0 <= i < bs.len() && bs[i].id == id)
    } else {
        None
    }
}

/// What the renderer accepts as an item: a well-formed, non-empty layout,
/// whole vertices, and lengths and indices small enough for the `u32`
/// arithmetic of the batches.
pub open spec fn item_ok(d: VertexDataView) -> bool {
    &&& layout_wf(d.layout.0, d.layout.1)
    &&& d.layout.0.len() > 0
    &&& d.layout.1 > 0
    &&& (d.vertices.len() as int) % (d.layout.1 as int) == 0
    &&& d.vertices.len() <= MAX_ITEM_LEN
    &&& d.indices.len() <= MAX_ITEM_LEN
    &&& forall|t: int| 0 <= t < d.indices.len() ==> #[trigger] d.indices[t] <= MAX_ITEM_LEN
}

/// The renderer's batches and the counter that names new ones.
pub struct Renderer {
    batches: Vec<Batch>,
    batch_counter: BatchID,
}

impl View for Renderer {
    type V = RendererView;

    closed spec fn view(&self) -> RendererView {
        RendererView {
            batches: self.batches@.map_values(|b: Batch| b@),
            batch_counter: self.batch_counter,
        }
    }
}

impl Renderer {
    pub open spec fn wf(&self) -> bool {
        &&& self.batches_wf()
        &&& batches_sorted(self@.batches)
        &&& ids_valid(self@.batches, self@.batch_counter)
    }

    pub closed spec fn batches_wf(&self) -> bool {
        forall|i: int| 0 <= i < self.batches@.len() ==> #[trigger] self.batches@[i].wf()
    }

    /// A renderer without batches.
    pub fn new() -> (r: Self)
        ensures
            r.wf(),
            r@.batches == Seq::<BatchView>::empty(),
            r@.batch_counter == 0,
    {
        let r = Renderer { batches: Vec::new(), batch_counter: 0 };
        proof {
            assert(r@.batches =~= Seq::<BatchView>::empty());
        }
        r
    }

    pub fn batches(&self) -> (r: &Vec<Batch>)
        ensures
            r@.map_values(|b: Batch| b@) == self@.batches,
            self.wf() ==> forall|i: int| 0 <= i < r@.len() ==> #[trigger] r@[i].wf(),
    {
        &self.batches
    }

    fn next_id(&mut self) -> (r: BatchID)
        requires
            old(self).batch_counter < u64::MAX,
        ensures
            r == old(self).batch_counter + 1,
            final(self).batch_counter == r,
            final(self).batches == old(self).batches,
    {
        self.batch_counter = self.batch_counter + 1;
        self.batch_counter
    }
}

} // verus!

verus! {

proof fn lemma_first_with_space(bs: Seq<BatchView>, d: VertexDataView, i: int)
    requires
        0 <= i < bs.len(),
        space_for(bs[i], d),
        forall|j: int| 0 <= j < i ==> !space_for(bs[j], d),
    ensures
        first_with_space(bs, d) == Some(i),
{
    let c = choose|k: int| 0 <= k < bs.len() && space_for(bs[k], d)
        && forall|j: int| 0 <= j < k ==> !space_for(bs[j], d);
    assert(0 <= c < bs.len() && space_for(bs[c], d) && forall|j: int| 0 <= j < c ==> !space_for(bs[j], d));
    if c < i {
        assert(!space_for(bs[c], d));
    }
    if c > i {
        assert(!space_for(bs[i], d));
    }
}

proof fn lemma_insert_pos(bs: Seq<BatchView>, z: u8, p: int)
    requires
        batches_sorted(bs),
        is_insert_pos(bs, z, p),
    ensures
        insert_pos(bs, z) == p,
{
    let c = insert_pos(bs, z);
    assert(is_insert_pos(bs, z, c));
    if c < p {
        assert(bs[c].z_index > z);
    }
    if c > p {
        assert(bs[p].z_index > z);
    }
}

impl Renderer {
    /// Adds the item to the first batch that has space for it; if none has,
    /// to a new batch (named by the next id) placed behind every batch whose
    /// z-index is not larger than the item's.
    pub fn add_vertices(&mut self, data: &mut VertexData) -> (r: VertexLocation)
        requires
            old(self).wf(),
            item_ok(old(data)@),
            old(self)@.batch_counter < u64::MAX,
        ensures
            final(self).wf(),
            final(self)@ == renderer_added(old(self)@, old(data)@),
            r@ == renderer_add_location(old(self)@, old(data)@),
            final(data)@ == (VertexDataView { vertices: renderer_added_bytes(old(self)@, old(data)@), ..old(data)@ }),
    {
        let ghost bs = self@.batches;
        let ghost d = data@;
        let n = self.batches.len();
        let mut i: usize = 0;
        let mut found = false;
        while i < n
            invariant_except_break
                0 <= i <= n,
                n == bs.len(),
                self@.batches == bs,
                self.batches@.len() == n,
                self.batches_wf(),
                forall|j: int| 0 <= j < i ==> !space_for(bs[j], d),
                !found,
                data@ == d,
                item_ok(d),
            ensures
                0 <= i <= n,
                found ==> i < n && space_for(bs[i as int], d),
                !found ==> i == n,
                forall|j: int| 0 <= j < i ==> !space_for(bs[j], d),
            decreases n - i,
        {
            assert(self.batches@[i as int]@ == bs[i as int]);
            assert(self.batches@[i as int].wf());
            if self.batches[i].has_space_for(data) {
                found = true;
                break;
            }
            i = i + 1;
        }
        if found {
            proof {
                lemma_first_with_space(bs, d, i as int);
                assert(self.batches@[i as int].wf());
                assert(self.batches@[i as int]@ == bs[i as int]);
                assert((d.vertices.len() as int) / (bs[i as int].layout.1 as int) <= d.vertices.len());
                assert(batch_view_wf(bs[i as int]));
                assert forall|t: int| 0 <= t < d.indices.len() implies #[trigger] d.indices[t] + (bs[i as int].vertices.len() as int) / (bs[i as int].layout.1 as int) <= u32::MAX by {
                    assert(d.indices[t] <= MAX_ITEM_LEN);
                    assert((bs[i as int].vertices.len() as int) / (bs[i as int].layout.1 as int) <= bs[i as int].vertices.len()) by (nonlinear_arith)
                        requires bs[i as int].layout.1 > 0;
                }
                assert(fits_in(bs[i as int], d));
            }
            let mut batch = self.batches.remove(i);
            let location = batch.add_vertices(data);
            self.batches.insert(i, batch);
            proof {
                let nbs = self.batches@.map_values(|b: Batch| b@);
                assert(nbs =~= bs.update(i as int, added(bs[i as int], d)));
                assert forall|k: int| 0 <= k < self.batches@.len() implies #[trigger] self.batches@[k].wf() by {
                    if k != i {
                        assert(self.batches@[k] == old(self).batches@[k]);
                    }
                }
                assert forall|k: int| 0 <= k < nbs.len() implies 0 < #[trigger] nbs[k].id <= self.batch_counter by {
                    assert(nbs[k].id == bs[k].id);
                }
            }
            location
        } else {
            proof {
                assert(!(exists|k: int| 0 <= k < bs.len() && space_for(bs[k], d)));
            }
            let id = self.next_id();
            let mut batch = Batch::new(id, data);
            proof {
                assert(batch@.vertices.len() == 0);
                assert(fits_in(batch@, d)) by {
                    assert forall|t: int| 0 <= t < d.indices.len() implies #[trigger] d.indices[t] + crate::renderer::batch::batch_vertex_count(batch@) <= u32::MAX by {
                        assert(d.indices[t] <= MAX_ITEM_LEN);
                        assert(0int / (batch@.layout.1 as int) == 0) by (nonlinear_arith) requires batch@.layout.1 > 0;
                    }
                }
            }
            let location = batch.add_vertices(data);
            let z = batch.z_index();
            let m = self.batches.len();
            let mut p: usize = 0;
            while p < m && self.batches[p].z_index() <= z
                invariant
                    0 <= p <= m,
                    m == bs.len(),
                    self.batches@.len() == m,
                    self@.batches == bs,
                    forall|k: int| 0 <= k < p ==> bs[k].z_index <= z,
                decreases m - p,
            {
                assert(self.batches@[p as int]@ == bs[p as int]);
                p = p + 1;
            }
            proof {
                assert forall|k: int| p <= k < bs.len() implies bs[k].z_index > z by {
                    if p < m {
                        assert(self.batches@[p as int]@ == bs[p as int]);
                        assert(bs[p as int].z_index > z);
                    }
                }
                assert(is_insert_pos(bs, z, p as int));
                lemma_insert_pos(bs, z, p as int);
            }
            self.batches.insert(p, batch);
            proof {
                let nbs = self.batches@.map_values(|b: Batch| b@);
                let nb = added(empty_batch(id, d), d);
                assert(nbs =~= bs.insert(p as int, nb));
                assert forall|k: int| 0 <= k < self.batches@.len() implies #[trigger] self.batches@[k].wf() by {
                    if k < p {
                        assert(self.batches@[k] == old(self).batches@[k]);
                    } else if k > p {
                        assert(self.batches@[k] == old(self).batches@[k - 1]);
                    }
                }
                assert forall|a: int, c: int| 0 <= a < c < nbs.len() implies nbs[a].z_index <= nbs[c].z_index by {
                    if a < p && c > p {
                        assert(nbs[a] == bs[a]);
                        assert(nbs[c] == bs[c - 1]);
                    }
                }
                assert forall|a: int, c: int| 0 <= a < nbs.len() && 0 <= c < nbs.len() && a != c implies nbs[a].id != nbs[c].id by {
                    if a == p {
                        if c < p { assert(nbs[c] == bs[c]); } else { assert(nbs[c] == bs[c - 1]); }
                    } else if c == p {
                        if a < p { assert(nbs[a] == bs[a]); } else { assert(nbs[a] == bs[a - 1]); }
                    }
                }
                assert forall|k: int| 0 <= k < nbs.len() implies 0 < #[trigger] nbs[k].id <= self.batch_counter by {
                    if k < p {
                        assert(nbs[k] == bs[k]);
                    } else if k > p {
                        assert(nbs[k] == bs[k - 1]);
                    }
                }
            }
            location
        }
    }
}

} // verus!

verus! {

/// Whether the location is one the renderer handed out and still holds, as
/// far as the batch it names exists.
pub open spec fn location_ok(bs: Seq<BatchView>, loc: VertexLocationView) -> bool {
    forall|i: int| 0 <= i < bs.len() && bs[i].id == loc.batch ==> holds(#[trigger] bs[i], loc)
}

/// Whether a batch holds no vertex bytes and no indices.
pub open spec fn deletable(b: BatchView) -> bool {
    b.vertices.len() == 0 && b.indices.len() == 0
}

proof fn lemma_find_batch(bs: Seq<BatchView>, counter: BatchID, id: BatchID, i: int)
    requires
        ids_valid(bs, counter),
        0 <= i < bs.len(),
        bs[i].id == id,
    ensures
        find_batch(bs, id) == Some(i),
{
    let c = choose|k: int| 0 <= k < bs.len() && bs[k].id == id;
    assert(0 <= c < bs.len() && bs[c].id == id);
}

impl Renderer {
    /// Index of the batch with the given id.
    fn batch_index(&self, id: BatchID) -> (r: Option<usize>)
        requires
            self.wf(),
        ensures
            r matches Some(i) ==> find_batch(self@.batches, id) == Some(i as int) && i < self@.batches.len(),
            r is None ==> find_batch(self@.batches, id) is None,
    {
        let n = self.batches.len();
        let mut i: usize = 0;
        while i < n
            invariant
                0 <= i <= n,
                n == self@.batches.len(),
                self.batches@.len() == n,
                forall|k: int| 0 <= k < i ==> self@.batches[k].id != id,
                self.wf(),
            decreases n - i,
        {
            assert(self.batches@[i as int]@ == self@.batches[i as int]);
            if self.batches[i].id() == id {
                proof {
                    lemma_find_batch(self@.batches, self@.batch_counter, id, i as int);
                }
                return Some(i);
            }
            i = i + 1;
        }
        None
    }

    /// Removes the item's vertices from its batch and drops the batch once it
    /// holds nothing; returns the id of the dropped batch. A location whose
    /// batch no longer exists changes nothing.
    pub fn remove_vertices(&mut self, location: &VertexLocation) -> (r: Option<BatchID>)
        requires
            old(self).wf(),
            location_ok(old(self)@.batches, location@),
        ensures
            final(self).wf(),
            final(self)@ == renderer_removed(old(self)@, location@),
            r == (match find_batch(old(self)@.batches, location@.batch) {
                Some(i) => if deletable(removed_from(old(self)@.batches[i], location@.offset_index as int)) {
                    Some(location@.batch)
                } else {
                    None
                },
                None => None,
            }),
    {
        let ghost bs = self@.batches;
        match self.batch_index(location.batch()) {
            None => None,
            Some(i) => {
                proof {
                    assert(self.batches@[i as int]@ == bs[i as int]);
                    assert(self.batches@[i as int].wf());
                }
                let mut batch = self.batches.remove(i);
                batch.remove_vertices(location);
                if batch.is_deletable() {
                    proof {
                        let nbs = self.batches@.map_values(|b: Batch| b@);
                        assert(nbs =~= bs.remove(i as int));
                        assert forall|k: int| 0 <= k < self.batches@.len() implies #[trigger] self.batches@[k].wf() by {
                            if k < i {
                                assert(self.batches@[k] == old(self).batches@[k]);
                            } else {
                                assert(self.batches@[k] == old(self).batches@[k + 1]);
                            }
                        }
                        assert forall|a: int, c: int| 0 <= a < c < nbs.len() implies nbs[a].z_index <= nbs[c].z_index by {
                            let a2 = if a < i { a } else { a + 1 };
                            let c2 = if c < i { c } else { c + 1 };
                            assert(nbs[a] == bs[a2]);
                            assert(nbs[c] == bs[c2]);
                        }
                        assert forall|a: int, c: int| 0 <= a < nbs.len() && 0 <= c < nbs.len() && a != c implies nbs[a].id != nbs[c].id by {
                            let a2 = if a < i { a } else { a + 1 };
                            let c2 = if c < i { c } else { c + 1 };
                            assert(nbs[a] == bs[a2]);
                            assert(nbs[c] == bs[c2]);
                        }
                        assert forall|k: int| 0 <= k < nbs.len() implies 0 < #[trigger] nbs[k].id <= self.batch_counter by {
                            let k2 = if k < i { k } else { k + 1 };
                            assert(nbs[k] == bs[k2]);
                        }
                    }
                    Some(location.batch())
                } else {
                    self.batches.insert(i, batch);
                    proof {
                        let nbs = self.batches@.map_values(|b: Batch| b@);
                        assert(nbs =~= bs.update(i as int, removed_from(bs[i as int], location@.offset_index as int)));
                        assert forall|k: int| 0 <= k < self.batches@.len() implies #[trigger] self.batches@[k].wf() by {
                            if k != i {
                                assert(self.batches@[k] == old(self).batches@[k]);
                            }
                        }
                        assert forall|k: int| 0 <= k < nbs.len() implies 0 < #[trigger] nbs[k].id <= self.batch_counter by {
                            assert(nbs[k].id == bs[k].id);
                        }
                    }
                    None
                }
            },
        }
    }

    /// Replaces the item's vertex bytes in its batch (see
    /// `Batch::modify_vertices`); fails if the location's batch does not
    /// exist.
    pub fn modify_vertices(&mut self, location: &VertexLocation, data: &mut Vec<u8>, texture: Option<RenderID>)
        -> (r: Result<(), RenderError>)
        requires
            old(self).wf(),
            location_ok(old(self)@.batches, location@),
        ensures
            final(self).wf(),
            (r, final(self)@, final(data)@) == renderer_modified(old(self)@, location@, old(data)@, texture),
    {
        let ghost bs = self@.batches;
        match self.batch_index(location.batch()) {
            None => Err(RenderError(RenderErrorKind::InvalidBatch(location.batch()))),
            Some(i) => {
                proof {
                    assert(self.batches@[i as int]@ == bs[i as int]);
                    assert(self.batches@[i as int].wf());
                }
                let mut batch = self.batches.remove(i);
                let r = batch.modify_vertices(location, data, texture);
                self.batches.insert(i, batch);
                proof {
                    let nbs = self.batches@.map_values(|b: Batch| b@);
                    assert(nbs =~= bs.update(i as int, modified(bs[i as int], location@, old(data)@, texture).1));
                    assert forall|k: int| 0 <= k < self.batches@.len() implies #[trigger] self.batches@[k].wf() by {
                        if k != i {
                            assert(self.batches@[k] == old(self).batches@[k]);
                        }
                    }
                    assert forall|k: int| 0 <= k < nbs.len() implies 0 < #[trigger] nbs[k].id <= self.batch_counter by {
                        assert(nbs[k].id == bs[k].id);
                    }
                }
                r
            },
        }
    }
}

} // verus!

verus! {

/// Something that the renderer can draw: it hands out its vertex data and
/// remembers where the renderer put it.
pub trait Renderable {
    /// Where the renderer put the item's vertices, if it did.
    spec fn spec_location(&self) -> Option<VertexLocation>;

    /// Whether the item's vertex data changed since the renderer last took it.
    spec fn spec_is_dirty(&self) -> bool;

    /// The vertex data the item stands for now (which it may compute only
    /// when asked for it).
    spec fn spec_vertex_data(&self) -> VertexDataView;

    /// The texture the item samples, if any.
    spec fn spec_texture_id(&self) -> Option<RenderID>;

    /// The item's vertex data; implementations hand out well-formed data.
    fn vertex_data(&mut self) -> (r: VertexData)
        ensures
            r@ == old(self).spec_vertex_data(),
            item_ok(r@),
            final(self).spec_location() == old(self).spec_location(),
    ;

    fn texture_id(&self) -> (r: Option<RenderID>)
        ensures
            r == self.spec_texture_id(),
    ;

    fn location(&self) -> (r: &Option<VertexLocation>)
        ensures
            *r == self.spec_location(),
    ;

    fn set_location(&mut self, location: Option<VertexLocation>)
        ensures
            final(self).spec_location() == location,
    ;

    fn has_location(&self) -> (r: bool)
        ensures
            r == self.spec_location() is Some,
    ;

    fn is_dirty(&self) -> (r: bool)
        ensures
            r == self.spec_is_dirty(),
    ;
}

/// Whether the location is held by the batch it names.
pub open spec fn placed(bs: Seq<BatchView>, loc: VertexLocationView) -> bool {
    exists|i: int| 0 <= i < bs.len() && bs[i].id == loc.batch && #[trigger] holds(bs[i], loc)
}

proof fn lemma_min_space_exists(bs: Seq<BatchView>, d: VertexDataView, k: int)
    requires
        0 <= k < bs.len(),
        space_for(bs[k], d),
    ensures
        exists|i: int| 0 <= i < bs.len() && space_for(bs[i], d)
            && forall|j: int| 0 <= j < i ==> !space_for(bs[j], d),
    decreases k,
{
    if exists|j: int| 0 <= j < k && space_for(bs[j], d) {
        let j = choose|j: int| 0 <= j < k && space_for(bs[j], d);
        lemma_min_space_exists(bs, d, j);
    } else {
        assert(forall|j: int| 0 <= j < k ==> !space_for(bs[j], d));
    }
}

/// The first batch with space for an item has space for it, and no batch
/// before it has.
pub proof fn lemma_first_with_space_props(bs: Seq<BatchView>, d: VertexDataView)
    ensures
        first_with_space(bs, d) matches Some(i) ==> 0 <= i < bs.len() && space_for(bs[i], d)
            && forall|j: int| 0 <= j < i ==> !space_for(bs[j], d),
        first_with_space(bs, d) is None ==> forall|j: int| 0 <= j < bs.len() ==> !space_for(bs[j], d),
{
    if exists|k: int| 0 <= k < bs.len() && space_for(bs[k], d) {
        let k = choose|k: int| 0 <= k < bs.len() && space_for(bs[k], d);
        lemma_min_space_exists(bs, d, k);
    }
}

/// A sorted sequence of batches has a place for a new batch of any z-index.
pub proof fn lemma_insert_pos_exists(bs: Seq<BatchView>, z: u8)
    requires
        batches_sorted(bs),
    ensures
        is_insert_pos(bs, z, insert_pos(bs, z)),
    decreases bs.len(),
{
    if bs.len() == 0 {
        assert(is_insert_pos(bs, z, 0));
    } else {
        let d = bs.drop_last();
        lemma_insert_pos_exists(d, z);
        let p = insert_pos(d, z);
        if bs.last().z_index <= z {
            assert forall|i: int| 0 <= i < bs.len() implies bs[i].z_index <= z by {
                if i < bs.len() - 1 {
                    assert(bs[i].z_index <= bs[bs.len() - 1].z_index);
                }
            }
            assert(is_insert_pos(bs, z, bs.len() as int));
        } else {
            assert(is_insert_pos(d, z, p));
            assert forall|i: int| 0 <= i < p implies bs[i].z_index <= z by {
                assert(bs[i] == d[i]);
            }
            assert forall|i: int| p <= i < bs.len() implies bs[i].z_index > z by {
                if i < d.len() {
                    assert(bs[i] == d[i]);
                }
            }
            assert(is_insert_pos(bs, z, p));
        }
    }
}

pub proof fn lemma_add_places(bs: Seq<BatchView>, counter: BatchID, d: VertexDataView, nbs: Seq<BatchView>, loc: VertexLocationView)
    requires
        item_ok(d),
        ({
            match first_with_space(bs, d) {
                Some(i) => nbs == bs.update(i, added(bs[i], d)) && loc == added_location(bs[i], d)
                    && 0 <= i < bs.len() && batch_view_wf(bs[i]),
                None => {
                    let nb = empty_batch((counter + 1) as u64, d);
                    nbs == bs.insert(insert_pos(bs, d.z_index), added(nb, d)) && loc == added_location(nb, d)
                        && 0 <= insert_pos(bs, d.z_index) <= bs.len()
                },
            }
        }),
    ensures
        placed(nbs, loc),
{
    match first_with_space(bs, d) {
        Some(i) => {
            let b = bs[i];
            lemma_first_with_space_props(bs, d);
            assert(space_for(b, d));
            let a = added(b, d);
            assert(nbs[i] == a);
            assert(a.slots[b.slots.len() as int] == Some((crate::renderer::batch::added_bytes(b, d), d.indices)));
            assert((d.vertices.len() as int) / (b.layout.1 as int) * (b.layout.1 as int) == d.vertices.len()) by (nonlinear_arith)
                requires (d.vertices.len() as int) % (b.layout.1 as int) == 0, b.layout.1 > 0;
            assert((d.vertices.len() as int) / (b.layout.1 as int) <= d.vertices.len()) by (nonlinear_arith)
                requires b.layout.1 > 0;
            assert(holds(nbs[i], loc));
        },
        None => {
            let nb = empty_batch((counter + 1) as u64, d);
            let p = insert_pos(bs, d.z_index);
            assert(nbs[p] == added(nb, d));
            assert((d.vertices.len() as int) / (nb.layout.1 as int) * (nb.layout.1 as int) == d.vertices.len()) by (nonlinear_arith)
                requires (d.vertices.len() as int) % (nb.layout.1 as int) == 0, nb.layout.1 > 0;
            assert((d.vertices.len() as int) / (nb.layout.1 as int) <= d.vertices.len()) by (nonlinear_arith)
                requires nb.layout.1 > 0;
            assert(holds(nbs[p], loc));
        },
    }
}

impl Renderer {
    /// Puts the item's vertices into a batch and tells the item where.
    pub fn add<R: Renderable>(&mut self, item: &mut R)
        requires
            old(self).wf(),
            old(self)@.batch_counter < u64::MAX,
        ensures
            final(self).wf(),
            final(item).spec_location() matches Some(l) && placed(final(self)@.batches, l@),
            final(self)@ == renderer_added(old(self)@, old(item).spec_vertex_data()),
            final(item).spec_location() matches Some(l)
                && l@ == renderer_add_location(old(self)@, old(item).spec_vertex_data()),
    {
        let ghost bs = self@.batches;
        let ghost counter = self@.batch_counter;
        let mut data = item.vertex_data();
        let ghost d = data@;
        let location = self.add_vertices(&mut data);
        proof {
            lemma_first_with_space_props(bs, d);
            if let Some(i) = first_with_space(bs, d) {
                assert(old(self).batches@[i]@ == bs[i]);
                assert(old(self).batches@[i].wf());
            } else {
                lemma_insert_pos_exists(bs, d.z_index);
            }
            lemma_add_places(bs, counter, d, self@.batches, location@);
        }
        item.set_location(Some(location));
    }

    /// Replaces the item's vertices by the ones it hands out now.
    pub fn modify<R: Renderable>(&mut self, item: &mut R) -> (r: Result<(), RenderError>)
        requires
            old(self).wf(),
            old(item).spec_location() matches Some(l) && location_ok(old(self)@.batches, l@),
        ensures
            final(self).wf(),
            final(item).spec_location() == old(item).spec_location(),
            ({
                let m = renderer_modified(old(self)@, old(item).spec_location()->0@,
                    old(item).spec_vertex_data().vertices, old(item).spec_texture_id());
                r == m.0 && final(self)@ == m.1
            }),
    {
        let texture = item.texture_id();
        let location = item.location().unwrap();
        let data = item.vertex_data();
        let mut vertices = data.vertices().clone();
        proof {
            assert(vertices@ =~= data@.vertices);
        }
        self.modify_vertices(&location, &mut vertices, texture)
    }

    /// Adds the item if the renderer does not hold it yet, or replaces its
    /// vertices if they changed.
    pub fn draw<R: Renderable>(&mut self, item: &mut R) -> (r: Result<(), RenderError>)
        requires
            old(self).wf(),
            old(self)@.batch_counter < u64::MAX,
            old(item).spec_location() matches Some(l) ==> location_ok(old(self)@.batches, l@),
        ensures
            final(self).wf(),
            final(item).spec_location() is Some,
            old(item).spec_location() is None ==> ({
                &&& r is Ok
                &&& final(self)@ == renderer_added(old(self)@, old(item).spec_vertex_data())
                &&& final(item).spec_location() matches Some(l)
                    && l@ == renderer_add_location(old(self)@, old(item).spec_vertex_data())
            }),
            old(item).spec_location() is Some && !old(item).spec_is_dirty() ==> r is Ok && final(self)@ == old(self)@
                && final(item).spec_location() == old(item).spec_location(),
            old(item).spec_location() is Some && old(item).spec_is_dirty() ==> ({
                let m = renderer_modified(old(self)@, old(item).spec_location()->0@,
                    old(item).spec_vertex_data().vertices, old(item).spec_texture_id());
                r == m.0 && final(self)@ == m.1
            }),
    {
        if !item.has_location() {
            self.add(item);
            Ok(())
        } else if item.is_dirty() {
            self.modify(item)
        } else {
            Ok(())
        }
    }

    /// Takes the item's vertices out of the renderer and forgets its location.
    pub fn remove<R: Renderable>(&mut self, item: &mut R) -> (r: Option<BatchID>)
        requires
            old(self).wf(),
            old(item).spec_location() matches Some(l) ==> location_ok(old(self)@.batches, l@),
        ensures
            final(self).wf(),
            final(item).spec_location() is None,
            old(item).spec_location() is None ==> final(self)@ == old(self)@ && r is None,
            old(item).spec_location() is Some ==> final(self)@ == renderer_removed(old(self)@, old(item).spec_location()->0@),
    {
        let location = *item.location();
        match location {
            Some(l) => {
                let r = self.remove_vertices(&l);
                item.set_location(None);
                r
            },
            None => None,
        }
    }

    /// Which buffers of batch `i` changed since their last upload, as
    /// (indices, vertices); both count as uploaded afterwards.
    pub fn take_pending_uploads(&mut self, i: usize) -> (r: (bool, bool))
        requires
            old(self).wf(),
            i < old(self)@.batches.len(),
        ensures
            final(self).wf(),
            r == (old(self)@.batches[i as int].indices_dirty, old(self)@.batches[i as int].vertices_dirty),
            final(self)@.batches == old(self)@.batches.update(i as int,
                BatchView { indices_dirty: false, vertices_dirty: false, ..old(self)@.batches[i as int] }),
            final(self)@.batch_counter == old(self)@.batch_counter,
    {
        let ghost bs = self@.batches;
        let mut batch = self.batches.remove(i);
        proof {
            assert(batch == old(self).batches@[i as int]);
            assert(batch.wf());
        }
        let r = batch.take_pending_uploads();
        self.batches.insert(i, batch);
        proof {
            let nbs = self.batches@.map_values(|b: Batch| b@);
            assert(nbs =~= bs.update(i as int, BatchView { indices_dirty: false, vertices_dirty: false, ..bs[i as int] }));
            assert forall|k: int| 0 <= k < self.batches@.len() implies #[trigger] self.batches@[k].wf() by {
                if k != i {
                    assert(self.batches@[k] == old(self).batches@[k]);
                }
            }
            assert forall|k: int| 0 <= k < nbs.len() implies 0 < #[trigger] nbs[k].id <= self.batch_counter by {
                assert(nbs[k].id == bs[k].id);
            }
        }
        r
    }
}

} // verus!
