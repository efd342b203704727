//! A text area of a fixed number of characters.

use vstd::prelude::*;
use crate::renderer::RenderID;
use crate::renderer::batch::{VertexLocation, MAX_BATCH_INDEX_COUNT};
use crate::renderer::text_area::{gen_indices, quad_indices};
use crate::text::{chars_to_string, append_decimal, decimal};

verus! {

/// The first `len` characters of `s`, filled up with spaces where `s` is
/// shorter.
pub open spec fn padded(s: Seq<char>, len: nat) -> Seq<char> {
    Seq::new(len, |i: int| if i < s.len() { s[i] } else { ' ' })
}

/// The characters of `s`, cut or filled with spaces to `len` characters.
pub fn padded_chars(s: &str, len: usize) -> (r: Vec<char>)
    ensures
        r@ == padded(s@, len as nat),
{
    let n = s.unicode_len();
    let mut out: Vec<char> = Vec::new();
    let mut i: usize = 0;
    while i < len
        invariant
            n == s@.len(),
            0 <= i <= len,
            out@ =~= padded(s@, i as nat),
        decreases len - i,
    {
        if i < n {
            out.push(s.get_char(i));
        } else {
            out.push(' ');
        }
        i = i + 1;
    }
    out
}

/// The observable state of a fixed-length text area.
pub struct FixedTextView {
    pub z_index: u8,
    pub content: Seq<char>,
    pub texture: RenderID,
    pub indices: Seq<u32>,
    pub location: Option<VertexLocation>,
    /// Whether the vertices must be computed (again) before drawing.
    pub dirty: bool,
}

/// A text area of exactly `L` characters, drawn from the texture of a
/// bitmap font.
pub struct TextArea<const L: usize> {
    z_index: u8,
    content: Vec<char>,
    texture: RenderID,
    indices: Vec<u32>,
    location: Option<VertexLocation>,
    dirty: bool,
}

impl<const L: usize> View for TextArea<L> {
    type V = FixedTextView;

    closed spec fn view(&self) -> FixedTextView {
        FixedTextView {
            z_index: self.z_index,
            content: self.content@,
            texture: self.texture,
            indices: self.indices@,
            location: self.location,
            dirty: self.dirty,
        }
    }
}

impl<const L: usize> TextArea<L> {
    pub open spec fn wf(&self) -> bool {
        &&& self@.content.len() == L
        &&& self@.indices == quad_indices(L as nat)
    }

    /// A text area showing `string`, cut or filled with spaces to `L`
    /// characters, drawn from the given font texture. Fails when the indices
    /// of `L` characters do not fit in one batch; the error counts the
    /// characters too many.
    pub fn with_string(z_index: u8, texture: RenderID, string: &str) -> (r: Result<Self, String>)
        requires
            6 * L <= u32::MAX,
        ensures
            r is Ok <==> 6 * L <= MAX_BATCH_INDEX_COUNT,
            r matches Err(e) ==> e@ == too_many_chars_text(((6 * L - MAX_BATCH_INDEX_COUNT) / 6 + 1) as nat),
            r matches Ok(t) ==> t.wf() && t@ == (FixedTextView {
                z_index,
                content: padded(string@, L as nat),
                texture,
                indices: quad_indices(L as nat),
                location: None,
                dirty: true,
            }),
    {
        let content = padded_chars(string, L);
        let indices = gen_indices(L);
        let num_indices: u32 = (6 * L) as u32;
        if num_indices > MAX_BATCH_INDEX_COUNT {
            return Err(too_many_chars_message((num_indices - MAX_BATCH_INDEX_COUNT) / 6 + 1));
        }
        Ok(TextArea { z_index, content, texture, indices, location: None, dirty: true })
    }

    /// The number of characters.
    pub fn len(&self) -> (r: usize)
        ensures
            r == L,
    {
        L
    }

    /// The characters shown.
    pub fn string(&self) -> (r: String)
        ensures
            r@ == self@.content,
    {
        chars_to_string(self.content.as_slice())
    }

    /// Shows `string` instead, cut or filled with spaces to `L` characters.
    pub fn set_string(&mut self, string: &str)
        requires
            old(self).wf(),
        ensures
            final(self).wf(),
            final(self)@ == (FixedTextView { content: padded(string@, L as nat), dirty: true, ..old(self)@ }),
    {
        self.content = padded_chars(string, L);
        self.dirty = true;
    }

    /// Whether the vertices must be computed (again) before drawing.
    pub fn is_dirty(&self) -> (r: bool)
        ensures
            r == self@.dirty,
    {
        self.dirty
    }

    /// Notes that the vertices of the current text were computed.
    pub fn set_computed(&mut self)
        requires
            old(self).wf(),
        ensures
            final(self).wf(),
            final(self)@ == (FixedTextView { dirty: false, ..old(self)@ }),
    {
        self.dirty = false;
    }

    pub fn z_index(&self) -> (r: u8)
        ensures
            r == self@.z_index,
    {
        self.z_index
    }

    pub fn texture_id(&self) -> (r: Option<RenderID>)
        ensures
            r == Some(self@.texture),
    {
        Some(self.texture)
    }

    pub fn indices(&self) -> (r: &[u32])
        ensures
            r@ == self@.indices,
    {
        self.indices.as_slice()
    }

    pub fn has_location(&self) -> (r: bool)
        ensures
            r == self@.location is Some,
    {
        self.location.is_some()
    }

    pub fn location(&self) -> (r: &Option<VertexLocation>)
        ensures
            *r == self@.location,
    {
        &self.location
    }

    pub fn set_location(&mut self, location: Option<VertexLocation>)
        requires
            old(self).wf(),
        ensures
            final(self).wf(),
            final(self)@ == (FixedTextView { location, ..old(self)@ }),
    {
        self.location = location;
    }
}

/// The text of the error for a text area with `excess` characters more
/// than one batch takes.
pub open spec fn too_many_chars_text(excess: nat) -> Seq<char> {
    "TextArea string is too long. "@ + decimal(excess) + " excessive characters."@
}

fn too_many_chars_message(excess: u32) -> (r: String)
    ensures
        r@ == too_many_chars_text(excess as nat),
{
    let mut s = String::new();
    s.append("TextArea string is too long. ");
    append_decimal(&mut s, excess as u64);
    s.append(" excessive characters.");
    proof {
        assert(s@ =~= too_many_chars_text(excess as nat));
    }
    s
}

} // verus!
