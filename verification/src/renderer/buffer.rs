//! Vertex buffer layouts: the attributes of one vertex, their byte offsets
//! and the stride between consecutive vertices.

use vstd::prelude::*;
use crate::renderer::shader::{ShaderDataType, spec_size};
use crate::renderer::gl_enums;

verus! {

/// Sum of the sizes in bytes of the given data types.
pub open spec fn sum_sizes(types: Seq<ShaderDataType>) -> int
    decreases types.len(),
{
    if types.len() == 0 {
        0
    } else {
        sum_sizes(types.drop_last()) + spec_size(types.last())
    }
}

/// The data types of a sequence of buffer elements.
pub open spec fn element_types(elements: Seq<BufferElement>) -> Seq<ShaderDataType> {
    elements.map_values(|e: BufferElement| e.typ)
}

/// One attribute of a vertex in a buffer.
#[derive(Clone, Copy, Debug, PartialEq, Eq, Structural)]
pub struct BufferElement {
    pub typ: ShaderDataType,
    pub offset: u32,
    pub normalized: bool,
}

impl BufferElement {
    /// A new, non-normalized element of the given type, at offset zero.
    pub fn new(typ: ShaderDataType) -> (r: Self)
        ensures
            r.typ == typ,
            r.offset == 0,
            !r.normalized,
    {
        BufferElement { typ, offset: 0, normalized: false }
    }

    /// The element for a shader data type (the conversion `From<ShaderDataType>`).
    pub fn from_data_type(value: ShaderDataType) -> (r: Self)
        ensures
            r == Self::new_spec(value),
    {
        Self::new(value)
    }

    pub open spec fn new_spec(typ: ShaderDataType) -> Self {
        BufferElement { typ, offset: 0, normalized: false }
    }

    pub fn typ(&self) -> (r: ShaderDataType)
        ensures
            r == self.typ,
    {
        self.typ
    }

    /// Size in bytes of this element.
    pub fn size(&self) -> (r: u32)
        ensures
            r == spec_size(self.typ),
    {
        self.typ.size()
    }

    pub fn component_count(&self) -> (r: i32)
        ensures
            r == crate::renderer::shader::spec_component_count(self.typ),
    {
        self.typ.component_count()
    }

    pub fn base_type(&self) -> (r: u32)
        ensures
            crate::renderer::shader::spec_base_is_fp(self.typ) ==> r == gl_enums::FLOAT,
            self.typ == ShaderDataType::Bool ==> r == gl_enums::BOOL,
            !crate::renderer::shader::spec_base_is_fp(self.typ) && self.typ != ShaderDataType::Bool
                ==> r == gl_enums::INT,
    {
        self.typ.base_type()
    }

    pub fn offset(&self) -> (r: u32)
        ensures
            r == self.offset,
    {
        self.offset
    }

    pub fn set_offset(&mut self, offset: u32)
        ensures
            *final(self) == (BufferElement { offset, ..*old(self) }),
    {
        self.offset = offset;
    }

    /// The OpenGL boolean telling whether the attribute is normalized.
    pub fn normalized(&self) -> (r: u8)
        ensures
            r == (if self.normalized { gl_enums::GL_TRUE } else { gl_enums::GL_FALSE }),
    {
        if self.normalized {
            gl_enums::GL_TRUE
        } else {
            gl_enums::GL_FALSE
        }
    }
}

/// The layout of one vertex: its elements, each at the offset where the
/// sizes of the elements before it end, and the stride, the size of all.
#[derive(Debug)]
pub struct BufferLayout {
    elements: Vec<BufferElement>,
    stride: u32,
}

impl View for BufferLayout {
    type V = (Seq<BufferElement>, u32);

    closed spec fn view(&self) -> (Seq<BufferElement>, u32) {
        (self.elements@, self.stride)
    }
}

impl Clone for BufferLayout {
    fn clone(&self) -> (r: Self)
        ensures
            r@ == self@,
    {
        let mut elements: Vec<BufferElement> = Vec::new();
        let n = self.elements.len();
        let mut i: usize = 0;
        while i < n
            invariant
                n == self.elements@.len(),
                0 <= i <= n,
                elements@ =~= self.elements@.take(i as int),
            decreases n - i,
        {
            elements.push(self.elements[i]);
            i = i + 1;
        }
        proof {
            assert(self.elements@.take(n as int) =~= self.elements@);
        }
        BufferLayout { elements, stride: self.stride }
    }
}

/// Whether the elements sit at consecutive offsets and the stride is the
/// total size.
pub open spec fn layout_wf(elements: Seq<BufferElement>, stride: u32) -> bool {
    &&& forall|i: int| 0 <= i < elements.len() ==>
            #[trigger] elements[i].offset == sum_sizes(element_types(elements).take(i))
    &&& stride == sum_sizes(element_types(elements))
}

proof fn lemma_sum_sizes_monotone(types: Seq<ShaderDataType>, i: int)
    requires
        0 <= i <= types.len(),
    ensures
        sum_sizes(types.take(i)) <= sum_sizes(types),
    decreases types.len() - i,
{
    if i < types.len() {
        lemma_sum_sizes_monotone(types, i + 1);
        assert(types.take(i + 1).drop_last() =~= types.take(i));
    } else {
        assert(types.take(i) =~= types);
    }
}

impl BufferLayout {
    /// The layout whose elements are the given ones, each moved to the offset
    /// where the elements before it end; the stride is their total size.
    pub fn new(elements: Vec<BufferElement>) -> (r: Self)
        requires
            sum_sizes(element_types(elements@)) <= u32::MAX,
        ensures
            r.wf(),
            r@.0.len() == elements@.len(),
            forall|i: int| 0 <= i < elements@.len() ==>
                #[trigger] r@.0[i].typ == elements@[i].typ
                && r@.0[i].normalized == elements@[i].normalized,
    {
        let mut buffer = BufferLayout { elements, stride: 0 };
        buffer.calculate_offsets_and_stride();
        buffer
    }

    pub open spec fn wf(&self) -> bool {
        layout_wf(self@.0, self@.1)
    }

    pub fn stride(&self) -> (r: u32)
        ensures
            r == self@.1,
    {
        self.stride
    }

    pub fn elements(&self) -> (r: &Vec<BufferElement>)
        ensures
            r@ == self@.0,
    {
        &self.elements
    }

    /// Whether the two layouts have the same elements and stride.
    pub fn same_as(&self, other: &BufferLayout) -> (r: bool)
        ensures
            r == (self@ == other@),
    {
        if self.stride != other.stride || self.elements.len() != other.elements.len() {
            return false;
        }
        let n = self.elements.len();
        let mut i: usize = 0;
        while i < n
            invariant
                n == self.elements@.len(),
                n == other.elements@.len(),
                0 <= i <= n,
                forall|j: int| 0 <= j < i ==> self.elements@[j] == other.elements@[j],
            decreases n - i,
        {
            let a = self.elements[i];
            let b = other.elements[i];
            if !(a.typ == b.typ && a.offset == b.offset && a.normalized == b.normalized) {
                return false;
            }
            i = i + 1;
        }
        proof {
            assert(self.elements@ =~= other.elements@);
        }
        true
    }

    fn calculate_offsets_and_stride(&mut self)
        requires
            sum_sizes(element_types(old(self).elements@)) <= u32::MAX,
        ensures
            final(self).wf(),
            final(self).elements@.len() == old(self).elements@.len(),
            forall|i: int| 0 <= i < old(self).elements@.len() ==>
                #[trigger] final(self).elements@[i].typ == old(self).elements@[i].typ
                && final(self).elements@[i].normalized == old(self).elements@[i].normalized,
    {
        let ghost types = element_types(self.elements@);
        let mut offset: u32 = 0;
        self.stride = 0;
        let n = self.elements.len();
        let mut i: usize = 0;
        while i < n
            invariant
                n == self.elements@.len(),
                n == old(self).elements@.len(),
                types == element_types(old(self).elements@),
                sum_sizes(types) <= u32::MAX,
                0 <= i <= n,
                offset == sum_sizes(types.take(i as int)),
                self.stride == offset,
                forall|j: int| 0 <= j < n ==>
                    #[trigger] self.elements@[j].typ == old(self).elements@[j].typ
                    && self.elements@[j].normalized == old(self).elements@[j].normalized,
                forall|j: int| 0 <= j < i ==>
                    #[trigger] self.elements@[j].offset == sum_sizes(types.take(j)),
            decreases n - i,
        {
            let mut element = self.elements[i];
            element.set_offset(offset);
            let size = element.size();
            proof {
                assert(types.take(i + 1).drop_last() =~= types.take(i as int));
                assert(types[i as int] == old(self).elements@[i as int].typ);
                lemma_sum_sizes_monotone(types, i + 1);
            }
            self.elements.set(i, element);
            offset = offset + size;
            self.stride = self.stride + size;
            i = i + 1;
        }
        proof {
            assert(types.take(n as int) =~= types);
            assert(element_types(self.elements@) =~= types);
        }
    }
}

} // verus!

verus! {

/// The sizes of a prefix of the types never exceed those of a longer prefix.
pub proof fn lemma_prefix_sizes_monotone(types: Seq<ShaderDataType>, i: int, j: int)
    requires
        0 <= i <= j <= types.len(),
    ensures
        sum_sizes(types.take(i)) <= sum_sizes(types.take(j)),
    decreases j - i,
{
    if i < j {
        lemma_prefix_sizes_monotone(types, i, j - 1);
        assert(types.take(j).drop_last() =~= types.take(j - 1));
    }
}

/// Adding one more type to a prefix adds its size.
pub proof fn lemma_prefix_sizes_step(types: Seq<ShaderDataType>, i: int)
    requires
        0 <= i < types.len(),
    ensures
        sum_sizes(types.take(i + 1)) == sum_sizes(types.take(i)) + spec_size(types[i]),
{
    assert(types.take(i + 1).drop_last() =~= types.take(i));
}

/// In a well-formed layout every element lies inside the stride, and an
/// element ends no later than any later element begins.
pub proof fn lemma_element_bounds(elements: Seq<BufferElement>, stride: u32, i: int, j: int)
    requires
        layout_wf(elements, stride),
        0 <= i < elements.len(),
        i < j <= elements.len(),
    ensures
        elements[i].offset + spec_size(elements[i].typ) <= stride,
        j < elements.len() ==> elements[i].offset + spec_size(elements[i].typ) <= elements[j].offset,
{
    let types = element_types(elements);
    lemma_prefix_sizes_step(types, i);
    lemma_prefix_sizes_monotone(types, i + 1, j);
    lemma_prefix_sizes_monotone(types, j, types.len() as int);
    assert(types.take(types.len() as int) =~= types);
    assert(types[i] == elements[i].typ);
}

/// In a well-formed layout the elements follow one another without gaps:
/// the first starts at offset 0, each next one where the previous one ends,
/// and the stride is where the last one ends (0 for no elements).
pub proof fn law_elements_packed_in_order(elements: Seq<BufferElement>, stride: u32)
    requires
        layout_wf(elements, stride),
    ensures
        elements.len() == 0 ==> stride == 0,
        elements.len() > 0 ==> elements[0].offset == 0,
        elements.len() > 0 ==> stride == elements.last().offset + spec_size(elements.last().typ),
        forall|i: int| 0 <= i < elements.len() - 1 ==>
            #[trigger] elements[i + 1].offset == elements[i].offset + spec_size(elements[i].typ),
{
    let types = element_types(elements);
    if elements.len() == 0 {
        assert(types =~= Seq::<ShaderDataType>::empty());
    } else {
        assert(types.take(0) =~= Seq::<ShaderDataType>::empty());
        assert(elements[0].offset == sum_sizes(types.take(0)));
        let n = elements.len() - 1;
        lemma_prefix_sizes_step(types, n);
        assert(types.take(n + 1) =~= types);
        assert(elements[n].offset == sum_sizes(types.take(n)));
        assert forall|i: int| 0 <= i < elements.len() - 1 implies
            #[trigger] elements[i + 1].offset == elements[i].offset + spec_size(elements[i].typ) by {
            lemma_prefix_sizes_step(types, i);
            assert(elements[i + 1].offset == sum_sizes(types.take(i + 1)));
            assert(elements[i].offset == sum_sizes(types.take(i)));
        }
    }
}

} // verus!
