//! The text of a text area, the length it may grow to, and the indices that
//! draw each of its characters as two triangles.

use vstd::prelude::*;
use crate::renderer::batch::VertexLocation;
use crate::text::{append_decimal, decimal};

verus! {

/// Where each of the six indices of a character's two triangles points
/// among its four corners.
pub open spec fn corner_of(k: int) -> int {
    let r = k % 6;
    if r == 0 || r == 5 {
        0
    } else if r == 1 {
        1
    } else if r == 2 || r == 3 {
        2
    } else {
        3
    }
}

/// The indices that draw `num_chars` characters, each a quad of four
/// vertices: `4i, 4i+1, 4i+2, 4i+2, 4i+3, 4i` for the `i`-th character.
pub open spec fn quad_indices(num_chars: nat) -> Seq<u32> {
    Seq::new(6 * num_chars, |k: int| (4 * (k / 6) + corner_of(k)) as u32)
}

/// Character `i` is drawn as the two triangles of its quad of vertices
/// `4i .. 4i+3`: its six indices are `4i, 4i+1, 4i+2` and `4i+2, 4i+3, 4i`.
pub proof fn law_quad_indices_draw_two_triangles(n: nat, i: int)
    requires
        0 <= i < n,
        4 * n <= u32::MAX,
    ensures
        quad_indices(n).len() == 6 * n,
        quad_indices(n)[6 * i] == 4 * i,
        quad_indices(n)[6 * i + 1] == 4 * i + 1,
        quad_indices(n)[6 * i + 2] == 4 * i + 2,
        quad_indices(n)[6 * i + 3] == 4 * i + 2,
        quad_indices(n)[6 * i + 4] == 4 * i + 3,
        quad_indices(n)[6 * i + 5] == 4 * i,
{
    assert((6 * i) / 6 == i && (6 * i) % 6 == 0) by (nonlinear_arith) requires i >= 0;
    assert((6 * i + 1) / 6 == i && (6 * i + 1) % 6 == 1) by (nonlinear_arith) requires i >= 0;
    assert((6 * i + 2) / 6 == i && (6 * i + 2) % 6 == 2) by (nonlinear_arith) requires i >= 0;
    assert((6 * i + 3) / 6 == i && (6 * i + 3) % 6 == 3) by (nonlinear_arith) requires i >= 0;
    assert((6 * i + 4) / 6 == i && (6 * i + 4) % 6 == 4) by (nonlinear_arith) requires i >= 0;
    assert((6 * i + 5) / 6 == i && (6 * i + 5) % 6 == 5) by (nonlinear_arith) requires i >= 0;
    assert(0 <= 4 * i + 3 <= u32::MAX);
}

/// The indices of `num_chars` quads, six per quad.
pub fn gen_indices(num_chars: usize) -> (r: Vec<u32>)
    requires
        4 * num_chars <= u32::MAX,
    ensures
        r@ == quad_indices(num_chars as nat),
        r@.len() == 6 * num_chars,
        forall|i: int| 0 <= i < num_chars ==> {
            &&& #[trigger] r@[6 * i] == 4 * i
            &&& r@[6 * i + 1] == 4 * i + 1
            &&& r@[6 * i + 2] == 4 * i + 2
            &&& r@[6 * i + 3] == 4 * i + 2
            &&& r@[6 * i + 4] == 4 * i + 3
            &&& r@[6 * i + 5] == 4 * i
        },
{
    proof {
        assert forall|i: int| 0 <= i < num_chars implies {
            &&& #[trigger] quad_indices(num_chars as nat)[6 * i] == 4 * i
            &&& quad_indices(num_chars as nat)[6 * i + 1] == 4 * i + 1
            &&& quad_indices(num_chars as nat)[6 * i + 2] == 4 * i + 2
            &&& quad_indices(num_chars as nat)[6 * i + 3] == 4 * i + 2
            &&& quad_indices(num_chars as nat)[6 * i + 4] == 4 * i + 3
            &&& quad_indices(num_chars as nat)[6 * i + 5] == 4 * i
        } by {
            law_quad_indices_draw_two_triangles(num_chars as nat, i);
        }
    }
    let mut indices: Vec<u32> = Vec::new();
    let mut i: usize = 0;
    while i < num_chars
        invariant
            4 * num_chars <= u32::MAX,
            0 <= i <= num_chars,
            indices@ =~= quad_indices(i as nat),
        decreases num_chars - i,
    {
        let base: u32 = (i * 4) as u32;
        indices.push(base);
        indices.push(base + 1);
        indices.push(base + 2);
        indices.push(base + 2);
        indices.push(base + 3);
        indices.push(base);
        proof {
            assert forall|k: int| 0 <= k < 6 * (i + 1) implies #[trigger] indices@[k] == quad_indices((i + 1) as nat)[k] by {
                if k >= 6 * i {
                    assert(k / 6 == i) by (nonlinear_arith)
                        requires 6 * i <= k < 6 * (i + 1);
                    assert(k % 6 == k - 6 * i) by (nonlinear_arith)
                        requires 6 * i <= k < 6 * (i + 1);
                }
            }
            assert(indices@ =~= quad_indices((i + 1) as nat));
        }
        i = i + 1;
    }
    indices
}

/// The observable state of a text area: its depth, the byte length its text
/// may reach, its text, the indices of its quads and where its vertices
/// stand in the renderer.
pub struct TextAreaView {
    pub z_index: u8,
    pub max_len: u32,
    pub content: Seq<char>,
    pub indices: Seq<u32>,
    pub location: Option<VertexLocation>,
}

/// A piece of text drawn with a bitmap font, with room for `max_len` bytes.
pub struct TextArea {
    z_index: u8,
    max_len: u32,
    content: String,
    indices: Vec<u32>,
    location: Option<VertexLocation>,
}

impl View for TextArea {
    type V = TextAreaView;

    closed spec fn view(&self) -> TextAreaView {
        TextAreaView {
            z_index: self.z_index,
            max_len: self.max_len,
            content: self.content@,
            indices: self.indices@,
            location: self.location,
        }
    }
}

/// The length in bytes of a text, as UTF-8.
pub open spec fn byte_len(s: Seq<char>) -> nat {
    vstd::utf8::encode_utf8(s).len()
}

impl TextArea {
    /// The text fits in the room of the text area, and there are indices for
    /// a quad per byte of that room.
    pub open spec fn wf(&self) -> bool {
        &&& byte_len(self@.content) <= self@.max_len
        &&& self@.indices == quad_indices(self@.max_len as nat)
    }

    /// An empty text area with room for `max_len` bytes.
    pub fn with_max_len(z_index: u8, max_len: usize) -> (r: Self)
        requires
            4 * max_len <= u32::MAX,
        ensures
            r@.z_index == z_index,
            r@.max_len == max_len,
            r@.content == Seq::<char>::empty(),
            r@.indices == quad_indices(max_len as nat),
            r@.location is None,
            r.wf(),
    {
        TextArea {
            z_index,
            max_len: max_len as u32,
            content: String::new(),
            indices: gen_indices(max_len),
            location: None,
        }
    }

    /// A text area holding `content`, with room for exactly its bytes.
    pub fn with_string(z_index: u8, content: String) -> (r: Self)
        requires
            4 * byte_len(content@) <= u32::MAX,
        ensures
            r@.z_index == z_index,
            r@.max_len == byte_len(content@),
            r@.content == content@,
            r@.indices == quad_indices(byte_len(content@)),
            r@.location is None,
            r.wf(),
    {
        let len = content.as_str().len();
        TextArea {
            z_index,
            max_len: len as u32,
            content,
            indices: gen_indices(len),
            location: None,
        }
    }

    /// A text area holding `content`, with room for `max_len` bytes or for
    /// the bytes of `content`, whichever is more.
    pub fn with_string_and_max_len(z_index: u8, max_len: usize, content: String) -> (r: Self)
        requires
            4 * max_len <= u32::MAX,
            4 * byte_len(content@) <= u32::MAX,
        ensures
            r@.z_index == z_index,
            r@.max_len == if byte_len(content@) > max_len { byte_len(content@) } else { max_len as nat },
            r@.content == content@,
            r@.indices == quad_indices(r@.max_len as nat),
            r@.location is None,
            r.wf(),
    {
        let content_len = content.as_str().len();
        let len = if content_len > max_len { content_len } else { max_len };
        TextArea {
            z_index,
            max_len: len as u32,
            content,
            indices: gen_indices(len),
            location: None,
        }
    }

    pub fn content(&self) -> (r: &str)
        ensures
            r@ == self@.content,
    {
        self.content.as_str()
    }

    /// The length of the text in bytes.
    pub fn len(&self) -> (r: usize)
        requires
            self.wf(),
        ensures
            r == byte_len(self@.content),
    {
        self.content.as_str().len()
    }

    pub fn is_empty(&self) -> (r: bool)
        ensures
            r == (self@.content.len() == 0),
    {
        self.content.as_str().is_empty()
    }

    pub fn max_len(&self) -> (r: usize)
        ensures
            r == self@.max_len,
    {
        self.max_len as usize
    }

    pub fn z_index(&self) -> (r: u8)
        ensures
            r == self@.z_index,
    {
        self.z_index
    }

    pub fn indices(&self) -> (r: &[u32])
        ensures
            r@ == self@.indices,
    {
        self.indices.as_slice()
    }

    pub fn location(&self) -> (r: &Option<VertexLocation>)
        ensures
            *r == self@.location,
    {
        &self.location
    }

    pub fn set_location(&mut self, location: VertexLocation)
        requires
            old(self).wf(),
        ensures
            final(self).wf(),
            final(self)@ == (TextAreaView { location: Some(location), ..old(self)@ }),
    {
        self.location = Some(location);
    }

    /// Replaces the text; fails, leaving the text as it was, if the new text
    /// has more bytes than the text area has room for.
    pub fn set_content(&mut self, content: String) -> (r: Result<(), String>)
        requires
            old(self).wf(),
            byte_len(content@) <= usize::MAX,
        ensures
            final(self).wf(),
            r is Ok <==> byte_len(content@) <= old(self)@.max_len,
            r is Ok ==> final(self)@ == (TextAreaView { content: content@, ..old(self)@ }),
            r is Err ==> final(self)@ == old(self)@,
            r matches Err(e) ==> e@ == too_long_text(old(self)@.max_len as nat, byte_len(content@)),
    {
        let len = content.as_str().len();
        if len > self.max_len as usize {
            return Err(too_long_message(self.max_len, len));
        }
        self.content = content;
        Ok(())
    }
}

/// The text of the error for a text of `len` bytes where a text area has
/// room for `max_len`.
pub open spec fn too_long_text(max_len: nat, len: nat) -> Seq<char> {
    "string exceeded max length of "@ + decimal(max_len) + " (had length of "@ + decimal(len) + "]"@
}

fn too_long_message(max_len: u32, len: usize) -> (r: String)
    ensures
        r@ == too_long_text(max_len as nat, len as nat),
{
    let mut s = String::new();
    s.append("string exceeded max length of ");
    append_decimal(&mut s, max_len as u64);
    s.append(" (had length of ");
    append_decimal(&mut s, len as u64);
    s.append("]");
    proof {
        assert(s@ =~= too_long_text(max_len as nat, len as nat));
    }
    s
}

} // verus!
