//! The stack of render layers: ordinary layers below, overlays on top, and
//! at most one layer of each kind.

use vstd::prelude::*;

verus! {

/// The identity of a kind of layer.
pub type LayerTypeId = u64;

/// Whether a layer of the given kind is in the stack.
pub open spec fn has_kind<T>(layers: Seq<(T, LayerTypeId)>, id: LayerTypeId) -> bool {
    exists|i: int| 0 <= i < layers.len() && (#[trigger] layers[i]).1 == id
}

/// A layer that was pushed is in the stack, so a second layer of its kind is
/// refused; the layers that were there stay, in their order.
pub proof fn law_pushed_kind_is_present<T>(layers: Seq<(T, LayerTypeId)>, at: int, layer: T, id: LayerTypeId, kind: LayerTypeId)
    requires
        0 <= at <= layers.len(),
    ensures
        has_kind(layers.insert(at, (layer, id)), id),
        has_kind(layers, kind) ==> has_kind(layers.insert(at, (layer, id)), kind),
{
    let s = layers.insert(at, (layer, id));
    assert(s[at].1 == id);
    if has_kind(layers, kind) {
        let i = choose|i: int| 0 <= i < layers.len() && (#[trigger] layers[i]).1 == kind;
        if i < at {
            assert(s[i] == layers[i]);
        } else {
            assert(s[i + 1] == layers[i]);
        }
    }
}

/// Which layers are overlays, bottom first, when the ordinary layers are
/// the first `boundary` ones.
pub open spec fn split_at_boundary(overlay: Seq<bool>, boundary: int) -> bool {
    forall|i: int| 0 <= i < overlay.len() ==> #[trigger] overlay[i] == (i >= boundary)
}

/// Every ordinary layer stays below every overlay: a layer pushed where
/// `push` and `push_overlay` put it (at the boundary, which moves up by one
/// for an ordinary layer) keeps the ordinary layers first.
pub proof fn law_ordinary_layers_below_overlays(overlay: Seq<bool>, boundary: int, pushed_overlay: bool)
    requires
        0 <= boundary <= overlay.len(),
        split_at_boundary(overlay, boundary),
    ensures
        split_at_boundary(
            overlay.insert(boundary, pushed_overlay),
            if pushed_overlay { boundary } else { boundary + 1 },
        ),
{
    let nf = overlay.insert(boundary, pushed_overlay);
    assert forall|i: int| 0 <= i < nf.len() implies #[trigger] nf[i] == (i >= if pushed_overlay { boundary } else { boundary + 1 }) by {
        if i < boundary {
            assert(nf[i] == overlay[i]);
        } else if i > boundary {
            assert(nf[i] == overlay[i - 1]);
        }
    }
}

/// Layers in drawing order, bottom first; those below `insert_index` are
/// ordinary layers, the rest overlays.
pub struct LayerStack<T> {
    layer_stack: Vec<(T, LayerTypeId)>,
    insert_index: usize,
}

impl<T> View for LayerStack<T> {
    type V = (Seq<(T, LayerTypeId)>, usize);

    closed spec fn view(&self) -> (Seq<(T, LayerTypeId)>, usize) {
        (self.layer_stack@, self.insert_index)
    }
}

impl<T> LayerStack<T> {
    pub open spec fn wf(&self) -> bool {
        self@.1 <= self@.0.len()
    }

    pub fn new() -> (r: Self)
        ensures
            r.wf(),
            r@.0 == Seq::<(T, LayerTypeId)>::empty(),
            r@.1 == 0,
    {
        LayerStack { layer_stack: Vec::new(), insert_index: 0 }
    }

    pub fn layers(&self) -> (r: &Vec<(T, LayerTypeId)>)
        ensures
            r@ == self@.0,
    {
        &self.layer_stack
    }

    /// The layer at position `i`, to be changed in place; its kind and its
    /// position stay.
    pub fn layer_mut(&mut self, i: usize) -> (r: &mut T)
        requires
            i < old(self)@.0.len(),
        ensures
            *r == old(self)@.0[i as int].0,
            final(self)@.0 == old(self)@.0.update(i as int, (*final(r), old(self)@.0[i as int].1)),
            final(self)@.1 == old(self)@.1,
    {
        &mut self.layer_stack[i].0
    }

    /// Whether a layer of the given kind is in the stack.
    pub fn contains(&self, id: LayerTypeId) -> (r: bool)
        ensures
            r == has_kind(self@.0, id),
    {
        let n = self.layer_stack.len();
        let mut i: usize = 0;
        while i < n
            invariant
                n == self.layer_stack@.len(),
                0 <= i <= n,
                forall|j: int| 0 <= j < i ==> (#[trigger] self.layer_stack@[j]).1 != id,
            decreases n - i,
        {
            if self.layer_stack[i].1 == id {
                return true;
            }
            i = i + 1;
        }
        false
    }

    /// Puts an ordinary layer above the other ordinary layers and below the
    /// overlays.
    pub fn push(&mut self, layer: T, id: LayerTypeId)
        requires
            old(self).wf(),
        ensures
            final(self).wf(),
            final(self)@.0 == old(self)@.0.insert(old(self)@.1 as int, (layer, id)),
            final(self)@.1 == old(self)@.1 + 1,
    {
        self.layer_stack.insert(self.insert_index, (layer, id));
        let n = self.layer_stack.len();
        proof {
            assert(self.insert_index < n);
        }
        self.insert_index = self.insert_index + 1;
    }

    /// Puts an overlay right above the ordinary layers, below the overlays
    /// pushed before it.
    pub fn push_overlay(&mut self, layer: T, id: LayerTypeId)
        requires
            old(self).wf(),
        ensures
            final(self).wf(),
            final(self)@.0 == old(self)@.0.insert(old(self)@.1 as int, (layer, id)),
            final(self)@.1 == old(self)@.1,
    {
        self.layer_stack.insert(self.insert_index, (layer, id));
    }
}

/// A layer of some kind was pushed when one of that kind was there already.
#[derive(Debug, Clone, Copy, PartialEq, Eq)]
pub struct LayerAlreadyExists(pub &'static str);

impl LayerAlreadyExists {
    /// The text of the error: `layer "<name>" already exists`.
    pub fn message(&self) -> (r: String)
        ensures
            r@ == "layer \""@ + self.0@ + "\" already exists"@,
    {
        let mut s = String::new();
        s.append("layer \"");
        s.append(self.0);
        s.append("\" already exists");
        proof {
            assert(s@ =~= "layer \""@ + self.0@ + "\" already exists"@);
        }
        s
    }
}

/// The layers a render context draws.
pub struct RenderContext<T> {
    layer_stack: LayerStack<T>,
}

impl<T> RenderContext<T> {
    pub closed spec fn spec_stack(&self) -> LayerStack<T> {
        self.layer_stack
    }

    pub open spec fn wf(&self) -> bool {
        self.spec_stack().wf()
    }

    pub fn new() -> (r: Self)
        ensures
            r.wf(),
            r.spec_stack()@.0 == Seq::<(T, LayerTypeId)>::empty(),
            r.spec_stack()@.1 == 0,
    {
        RenderContext { layer_stack: LayerStack::new() }
    }

    /// The layer at position `i`, to be changed in place.
    pub fn layer_mut(&mut self, i: usize) -> (r: &mut T)
        requires
            old(self).wf(),
            i < old(self).spec_stack()@.0.len(),
        ensures
            final(self).wf(),
            *r == old(self).spec_stack()@.0[i as int].0,
            final(self).spec_stack()@.0 == old(self).spec_stack()@.0.update(
                i as int,
                (*final(r), old(self).spec_stack()@.0[i as int].1),
            ),
            final(self).spec_stack()@.1 == old(self).spec_stack()@.1,
    {
        self.layer_stack.layer_mut(i)
    }

    pub fn layer_stack(&self) -> (r: &LayerStack<T>)
        ensures
            *r == self.spec_stack(),
    {
        &self.layer_stack
    }

    /// Pushes a layer of the kind `id`, as an overlay or as an ordinary
    /// layer. Fails, changing nothing, if a layer of that kind is there
    /// already.
    pub fn push(&mut self, layer: T, id: LayerTypeId, name: &'static str, is_overlay: bool) -> (r: Result<(), LayerAlreadyExists>)
        requires
            old(self).wf(),
        ensures
            final(self).wf(),
            r is Err <==> has_kind(old(self).spec_stack()@.0, id),
            r matches Err(e) ==> e.0 == name && final(self).spec_stack()@ == old(self).spec_stack()@,
            r is Ok ==> final(self).spec_stack()@.0 == old(self).spec_stack()@.0.insert(
                old(self).spec_stack()@.1 as int,
                (layer, id),
            ),
            r is Ok ==> final(self).spec_stack()@.1 == old(self).spec_stack()@.1 + if is_overlay { 0int } else { 1int },
    {
        if self.layer_stack.contains(id) {
            return Err(LayerAlreadyExists(name));
        }
        if is_overlay {
            self.layer_stack.push_overlay(layer, id);
        } else {
            self.layer_stack.push(layer, id);
        }
        Ok(())
    }
}

} // verus!
