//! The attribute kinds a vertex is made of, and the buffer layouts built
//! from a tuple of them.

use vstd::prelude::*;
use std::marker::PhantomData;
use crate::renderer::shader::{ShaderDataType, spec_size};
use crate::renderer::buffer::{BufferElement, BufferLayout, sum_sizes, element_types};

verus! {

/// A kind of vertex attribute, with the shader data type that carries it.
pub trait ShaderLayoutType {
    spec fn spec_data_type() -> ShaderDataType;

    fn data_type() -> (r: ShaderDataType)
        ensures
            r == Self::spec_data_type(),
    ;
}

/// The position of a vertex: three floats.
pub struct Vertex;

/// A texture coordinate: two floats.
pub struct TexCoord;

/// A color: four floats.
pub struct Color;

/// The texture slot a vertex samples from.
pub struct TextureID;

impl ShaderLayoutType for Vertex {
    open spec fn spec_data_type() -> ShaderDataType {
        ShaderDataType::Float3
    }

    fn data_type() -> (r: ShaderDataType) {
        ShaderDataType::Float3
    }
}

impl ShaderLayoutType for TexCoord {
    open spec fn spec_data_type() -> ShaderDataType {
        ShaderDataType::Float2
    }

    fn data_type() -> (r: ShaderDataType) {
        ShaderDataType::Float2
    }
}

impl ShaderLayoutType for Color {
    open spec fn spec_data_type() -> ShaderDataType {
        ShaderDataType::Float4
    }

    fn data_type() -> (r: ShaderDataType) {
        ShaderDataType::Float4
    }
}

impl ShaderLayoutType for TextureID {
    open spec fn spec_data_type() -> ShaderDataType {
        ShaderDataType::Sampler2D
    }

    fn data_type() -> (r: ShaderDataType) {
        ShaderDataType::Sampler2D
    }
}

/// The data types of the attributes of a vertex, in order.
pub trait Layout {
    spec fn spec_layout() -> Seq<ShaderDataType>;

    fn layout() -> (r: Vec<ShaderDataType>)
        ensures
            r@ == Self::spec_layout(),
            r@.len() <= 16,
    ;
}

impl<A: ShaderLayoutType> Layout for (A,) {
    open spec fn spec_layout() -> Seq<ShaderDataType> {
        seq![A::spec_data_type()]
    }

    fn layout() -> (r: Vec<ShaderDataType>) {
        let r = vec![A::data_type()];
        proof {
            assert(r@ =~= seq![A::spec_data_type()]);
        }
        r
    }
}

impl<A: ShaderLayoutType, B: ShaderLayoutType> Layout for (A, B) {
    open spec fn spec_layout() -> Seq<ShaderDataType> {
        seq![A::spec_data_type(), B::spec_data_type()]
    }

    fn layout() -> (r: Vec<ShaderDataType>) {
        let r = vec![A::data_type(), B::data_type()];
        proof {
            assert(r@ =~= seq![A::spec_data_type(), B::spec_data_type()]);
        }
        r
    }
}

impl<A: ShaderLayoutType, B: ShaderLayoutType, C: ShaderLayoutType> Layout for (A, B, C) {
    open spec fn spec_layout() -> Seq<ShaderDataType> {
        seq![A::spec_data_type(), B::spec_data_type(), C::spec_data_type()]
    }

    fn layout() -> (r: Vec<ShaderDataType>) {
        let r = vec![A::data_type(), B::data_type(), C::data_type()];
        proof {
            assert(r@ =~= seq![A::spec_data_type(), B::spec_data_type(), C::spec_data_type()]);
        }
        r
    }
}

impl<
    A: ShaderLayoutType,
    B: ShaderLayoutType,
    C: ShaderLayoutType,
    D: ShaderLayoutType,
> Layout for (A, B, C, D) {
    open spec fn spec_layout() -> Seq<ShaderDataType> {
        seq![A::spec_data_type(), B::spec_data_type(), C::spec_data_type(), D::spec_data_type()]
    }

    fn layout() -> (r: Vec<ShaderDataType>) {
        let r = vec![A::data_type(), B::data_type(), C::data_type(), D::data_type()];
        proof {
            assert(r@ =~= seq![
                A::spec_data_type(),
                B::spec_data_type(),
                C::spec_data_type(),
                D::spec_data_type(),
            ]);
        }
        r
    }
}

/// Builds the buffer layout of a vertex made of the attributes `T`.
pub struct BufferLayoutBuilder<T>(PhantomData<T>);

/// No data type is larger than a four by four matrix of floats.
proof fn lemma_sum_sizes_bound(types: Seq<ShaderDataType>)
    ensures
        sum_sizes(types) <= 64 * types.len(),
    decreases types.len(),
{
    if types.len() > 0 {
        lemma_sum_sizes_bound(types.drop_last());
        assert(spec_size(types.last()) <= 64);
    }
}

impl<T: Layout> BufferLayoutBuilder<T> {
    /// The layout whose elements are the attributes of `T`, in order, none
    /// normalized, each at the offset where the ones before it end.
    pub fn build() -> (r: BufferLayout)
        ensures
            r.wf(),
            element_types(r@.0) == T::spec_layout(),
            forall|i: int| 0 <= i < r@.0.len() ==> !(#[trigger] r@.0[i]).normalized,
    {
        let types = T::layout();
        let mut elements: Vec<BufferElement> = Vec::new();
        let n = types.len();
        let mut i: usize = 0;
        while i < n
            invariant
                n == types@.len(),
                0 <= i <= n,
                elements@.len() == i,
                forall|j: int| 0 <= j < i ==>
                    #[trigger] elements@[j] == BufferElement::new_spec(types@[j]),
            decreases n - i,
        {
            elements.push(BufferElement::from_data_type(types[i]));
            i = i + 1;
        }
        proof {
            assert(element_types(elements@) =~= types@);
            lemma_sum_sizes_bound(types@);
        }
        let r = BufferLayout::new(elements);
        proof {
            assert(element_types(r@.0) =~= types@);
            assert forall|i: int| 0 <= i < r@.0.len() implies !(#[trigger] r@.0[i]).normalized by {
                assert(elements@[i] == BufferElement::new_spec(types@[i]));
            }
        }
        r
    }
}

} // verus!
