//! Bitmap fonts: a sprite sheet of glyphs, the sprite of each character, and
//! the width of each glyph.

use vstd::prelude::*;
use crate::math::Vector2;
use crate::renderer::texture::{Texture, spec_bytes_per_pixel};
use crate::renderer::sprite_sheet::{SpriteSheet, SpriteRegion, columns, rows, sprite_region, not_multiple_text};
use crate::text::{append_decimal, decimal};

verus! {

/// Whether pixel `p` of the image has a non-zero red, green or blue channel.
pub open spec fn pixel_lit(pixels: Seq<u8>, bpp: int, p: int) -> bool {
    pixels[p * bpp] > 0 || pixels[p * bpp + 1] > 0 || pixels[p * bpp + 2] > 0
}

/// Index of the pixel at row `dy` and column `dx` of glyph cell (`x`, `y`).
pub open spec fn cell_pixel(tex_x: int, cs: Vector2<u32>, x: int, y: int, dx: int, dy: int) -> int {
    (y * cs.y + dy) * tex_x + (x * cs.x + dx)
}

/// Whether column `dx` of glyph cell (`x`, `y`) has a lit pixel.
pub open spec fn column_lit(pixels: Seq<u8>, bpp: int, tex_x: int, cs: Vector2<u32>, x: int, y: int, dx: int) -> bool {
    exists|dy: int| 0 <= dy < cs.y && #[trigger] pixel_lit(pixels, bpp, cell_pixel(tex_x, cs, x, y, dx, dy))
}

/// The rightmost of the first `n` columns of the cell that has a lit pixel.
pub open spec fn last_lit_column(pixels: Seq<u8>, bpp: int, tex_x: int, cs: Vector2<u32>, x: int, y: int, n: int) -> Option<int>
    decreases n,
{
    if n <= 0 {
        None
    } else if column_lit(pixels, bpp, tex_x, cs, x, y, n - 1) {
        Some(n - 1)
    } else {
        last_lit_column(pixels, bpp, tex_x, cs, x, y, n - 1)
    }
}

/// The width of the glyph in cell (`x`, `y`): the index of its rightmost
/// column with a lit pixel, or the full cell width if it has none.
pub open spec fn glyph_width(pixels: Seq<u8>, bpp: int, tex_x: int, cs: Vector2<u32>, x: int, y: int) -> u32 {
    match last_lit_column(pixels, bpp, tex_x, cs, x, y, cs.x as int) {
        Some(dx) => dx as u32,
        None => cs.x,
    }
}

/// The glyph widths, cell by cell and row by row.
pub open spec fn glyph_widths(pixels: Seq<u8>, bpp: int, tex_x: int, cs: Vector2<u32>, w: int, h: int, monospaced: bool) -> Seq<u32> {
    Seq::new((w * h) as nat, |i: int| if monospaced { cs.x } else { glyph_width(pixels, bpp, tex_x, cs, i % w, i / w) })
}

proof fn lemma_last_lit_column_bounds(pixels: Seq<u8>, bpp: int, tex_x: int, cs: Vector2<u32>, x: int, y: int, n: int)
    ensures
        last_lit_column(pixels, bpp, tex_x, cs, x, y, n) matches Some(dx) ==> 0 <= dx < n,
    decreases n,
{
    if n > 0 && !column_lit(pixels, bpp, tex_x, cs, x, y, n - 1) {
        lemma_last_lit_column_bounds(pixels, bpp, tex_x, cs, x, y, n - 1);
    }
}

/// A glyph is never wider than its cell: the measured width of any cell is
/// at most the cell width.
pub proof fn law_glyph_width_within_cell(pixels: Seq<u8>, bpp: int, tex_x: int, cs: Vector2<u32>, x: int, y: int)
    ensures
        glyph_width(pixels, bpp, tex_x, cs, x, y) <= cs.x,
{
    lemma_last_lit_column_bounds(pixels, bpp, tex_x, cs, x, y, cs.x as int);
}

/// There is one width per glyph cell, none wider than the cell, and in a
/// monospaced font every glyph is exactly as wide as its cell, whatever the
/// pixels hold.
pub proof fn law_glyph_widths_fit_cells(pixels: Seq<u8>, bpp: int, tex_x: int, cs: Vector2<u32>, w: int, h: int, monospaced: bool)
    requires
        w >= 0,
        h >= 0,
    ensures
        glyph_widths(pixels, bpp, tex_x, cs, w, h, monospaced).len() == w * h,
        forall|i: int| 0 <= i < w * h ==> #[trigger] glyph_widths(pixels, bpp, tex_x, cs, w, h, monospaced)[i] <= cs.x,
        monospaced ==> forall|i: int| 0 <= i < w * h ==> #[trigger] glyph_widths(pixels, bpp, tex_x, cs, w, h, monospaced)[i] == cs.x,
{
    assert(w * h >= 0) by (nonlinear_arith)
        requires w >= 0, h >= 0;
    assert forall|i: int| 0 <= i < w * h implies #[trigger] glyph_widths(pixels, bpp, tex_x, cs, w, h, monospaced)[i] <= cs.x by {
        law_glyph_width_within_cell(pixels, bpp, tex_x, cs, i % w, i / w);
    }
}

/// The widths of a monospaced font do not depend on the texture's pixels.
pub proof fn law_monospaced_widths_ignore_pixels(p1: Seq<u8>, p2: Seq<u8>, bpp: int, tex_x: int, cs: Vector2<u32>, w: int, h: int)
    requires
        w >= 0,
        h >= 0,
    ensures
        glyph_widths(p1, bpp, tex_x, cs, w, h, true) == glyph_widths(p2, bpp, tex_x, cs, w, h, true),
{
    law_glyph_widths_fit_cells(p1, bpp, tex_x, cs, w, h, true);
    law_glyph_widths_fit_cells(p2, bpp, tex_x, cs, w, h, true);
    assert(glyph_widths(p1, bpp, tex_x, cs, w, h, true) =~= glyph_widths(p2, bpp, tex_x, cs, w, h, true));
}

/// The value of the first pair whose key is `c`.
pub open spec fn lookup(chars: Seq<(char, u32)>, c: char) -> Option<u32>
    decreases chars.len(),
{
    if chars.len() == 0 {
        None
    } else if chars[0].0 == c {
        Some(chars[0].1)
    } else {
        lookup(chars.drop_first(), c)
    }
}

/// No character is listed twice.
pub open spec fn keys_distinct(chars: Seq<(char, u32)>) -> bool {
    forall|i: int, j: int| 0 <= i < j < chars.len() ==> #[trigger] chars[i].0 != #[trigger] chars[j].0
}

/// A font drawn from a texture of glyphs.
pub struct BitmapFont {
    char_size: Vector2<u32>,
    sprite_sheet: SpriteSheet,
    characters: Vec<(char, u32)>,
    widths: Vec<u32>,
}

/// Index of the first pair whose key is `c`.
fn find_char(chars: &Vec<(char, u32)>, c: char) -> (r: Option<u32>)
    ensures
        r == lookup(chars@, c),
{
    let mut i: usize = 0;
    proof {
        assert(chars@.skip(0) =~= chars@);
    }
    while i < chars.len()
        invariant
            0 <= i <= chars@.len(),
            lookup(chars@, c) == lookup(chars@.skip(i as int), c),
        decreases chars@.len() - i,
    {
        let (k, v) = chars[i];
        proof {
            assert(chars@.skip(i as int)[0] == chars@[i as int]);
            assert(chars@.skip(i as int).drop_first() =~= chars@.skip(i + 1));
        }
        if k == c {
            return Some(v);
        }
        i = i + 1;
    }
    None
}

/// The glyph width of one cell, scanning its columns from the right.
fn cell_width(pixels: &[u8], bpp: usize, tex_x: u32, tex_y: u32, cs: Vector2<u32>, x: u32, y: u32) -> (r: u32)
    requires
        cs.x > 0,
        cs.y > 0,
        3 <= bpp <= 4,
        (x + 1) * cs.x <= tex_x,
        (y + 1) * cs.y <= tex_y,
        tex_x * tex_y <= u32::MAX,
        pixels@.len() == tex_x * tex_y * bpp,
    ensures
        r == glyph_width(pixels@, bpp as int, tex_x as int, cs, x as int, y as int),
{
    let ghost px = pixels@;
    let plen = pixels.len();
    let mut dx: u32 = cs.x;
    while dx > 0
        invariant
            0 <= dx <= cs.x,
            cs.x > 0,
            cs.y > 0,
            3 <= bpp <= 4,
            (x + 1) * cs.x <= tex_x,
            (y + 1) * cs.y <= tex_y,
            tex_x * tex_y <= u32::MAX,
            px == pixels@,
            px.len() == tex_x * tex_y * bpp,
            px.len() == plen,
            last_lit_column(px, bpp as int, tex_x as int, cs, x as int, y as int, cs.x as int)
                == last_lit_column(px, bpp as int, tex_x as int, cs, x as int, y as int, dx as int),
        decreases dx,
    {
        let col = dx - 1;
        let mut dy: u32 = 0;
        let mut lit = false;
        while dy < cs.y
            invariant_except_break
                0 <= dy <= cs.y,
                !lit,
                forall|k: int| 0 <= k < dy ==> !pixel_lit(px, bpp as int, cell_pixel(tex_x as int, cs, x as int, y as int, col as int, k)),
            invariant
                cs.x > 0,
                cs.y > 0,
                col < cs.x,
                3 <= bpp <= 4,
                (x + 1) * cs.x <= tex_x,
                (y + 1) * cs.y <= tex_y,
                tex_x * tex_y <= u32::MAX,
                px == pixels@,
                px.len() == tex_x * tex_y * bpp,
                px.len() == plen,
            ensures
                lit <==> column_lit(px, bpp as int, tex_x as int, cs, x as int, y as int, col as int),
            decreases cs.y - dy,
        {
            let ghost p_int = cell_pixel(tex_x as int, cs, x as int, y as int, col as int, dy as int);
            proof {
                assert(y * cs.y + dy < tex_y) by (nonlinear_arith)
                    requires dy < cs.y, (y + 1) * cs.y <= tex_y;
                assert(x * cs.x + col < tex_x) by (nonlinear_arith)
                    requires col < cs.x, (x + 1) * cs.x <= tex_x;
                assert(p_int < tex_x * tex_y) by (nonlinear_arith)
                    requires p_int == (y * cs.y + dy) * tex_x + (x * cs.x + col),
                        y * cs.y + dy < tex_y, x * cs.x + col < tex_x, y * cs.y + dy >= 0, x * cs.x + col >= 0;
                assert(p_int >= 0) by (nonlinear_arith)
                    requires p_int == (y * cs.y + dy) * tex_x + (x * cs.x + col),
                        y * cs.y + dy >= 0, x * cs.x + col >= 0, tex_x >= 0;
                assert(p_int * bpp + 2 < tex_x * tex_y * bpp) by (nonlinear_arith)
                    requires p_int < tex_x * tex_y, 3 <= bpp, p_int >= 0;
            }
            let p = ((y * cs.y + dy) * tex_x + (x * cs.x + col)) as usize;
            let q = p * bpp;
            if pixels[q] > 0 || pixels[q + 1] > 0 || pixels[q + 2] > 0 {
                proof {
                    assert(p == p_int);
                    assert(pixel_lit(px, bpp as int, p_int));
                }
                lit = true;
                break;
            }
            dy = dy + 1;
        }
        if lit {
            proof {
                assert(last_lit_column(px, bpp as int, tex_x as int, cs, x as int, y as int, dx as int) == Some(col as int));
            }
            return col;
        }
        dx = dx - 1;
    }
    cs.x
}

impl BitmapFont {
    pub closed spec fn spec_char_size(&self) -> Vector2<u32> {
        self.char_size
    }

    pub closed spec fn spec_sprite_sheet(&self) -> &SpriteSheet {
        &self.sprite_sheet
    }

    pub closed spec fn spec_characters(&self) -> Seq<(char, u32)> {
        self.characters@
    }

    pub closed spec fn spec_widths(&self) -> Seq<u32> {
        self.widths@
    }

    /// Builds the font from its glyph texture, the size of one glyph cell, the
    /// sprite index of each character and the texture's pixel bytes. The
    /// width of a glyph is that of its cell for monospaced fonts, else the
    /// index of its rightmost column with a pixel that is not black (the
    /// whole cell if there is none). Fails if the cells do not tile the
    /// texture.
    pub fn from_texture(texture: Texture, char_size: Vector2<u32>, characters: Vec<(char, u32)>, monospaced: bool, pixels: &[u8])
        -> (r: Result<Self, String>)
        requires
            keys_distinct(characters@),
            char_size.x > 0,
            char_size.y > 0,
            spec_bytes_per_pixel(texture.spec_data_format()) is Some,
            texture.spec_size().x * texture.spec_size().y <= u32::MAX,
            pixels@.len() == texture.spec_size().x * texture.spec_size().y
                * spec_bytes_per_pixel(texture.spec_data_format())->0,
        ensures
            r is Ok <==> (texture.spec_size().x % char_size.x == 0 && texture.spec_size().y % char_size.y == 0),
            r matches Err(e) ==> e@ == not_multiple_text(texture.spec_size(), char_size),
            r matches Ok(f) ==> {
                &&& f.spec_char_size() == char_size
                &&& f.spec_characters() == characters@
                &&& keys_distinct(f.spec_characters())
                &&& f.spec_sprite_sheet().wf()
                &&& *f.spec_sprite_sheet().spec_texture() == texture
                &&& f.spec_sprite_sheet().spec_sprite_size() == char_size
                &&& f.spec_widths() == glyph_widths(pixels@, spec_bytes_per_pixel(texture.spec_data_format())->0 as int,
                    texture.spec_size().x as int, char_size,
                    columns(texture.spec_size(), char_size), rows(texture.spec_size(), char_size), monospaced)
                &&& f.spec_widths().len() == columns(texture.spec_size(), char_size) * rows(texture.spec_size(), char_size)
                &&& forall|i: int| 0 <= i < f.spec_widths().len() ==> #[trigger] f.spec_widths()[i] <= char_size.x
                &&& monospaced ==> forall|i: int| 0 <= i < f.spec_widths().len() ==> #[trigger] f.spec_widths()[i] == char_size.x
            },
    {
        let tex_x = texture.size().x;
        let tex_y = texture.size().y;
        let bpp = texture.bytes_per_pixel() as usize;
        let w = tex_x / char_size.x;
        let h = tex_y / char_size.y;
        let ghost wi = w as int;
        let ghost hi = h as int;
        let ghost expected = glyph_widths(pixels@, bpp as int, tex_x as int, char_size, wi, hi, monospaced);
        proof {
            assert(wi * char_size.x <= tex_x) by (nonlinear_arith)
                requires wi == tex_x as int / char_size.x as int, char_size.x > 0, tex_x >= 0;
            assert(hi * char_size.y <= tex_y) by (nonlinear_arith)
                requires hi == tex_y as int / char_size.y as int, char_size.y > 0, tex_y >= 0;
            assert(wi * hi <= tex_x * tex_y) by (nonlinear_arith)
                requires wi <= tex_x, hi <= tex_y, wi >= 0, hi >= 0;
            assert(wi <= tex_x) by (nonlinear_arith)
                requires wi == tex_x as int / char_size.x as int, char_size.x > 0, tex_x >= 0;
            assert(hi <= tex_y) by (nonlinear_arith)
                requires hi == tex_y as int / char_size.y as int, char_size.y > 0, tex_y >= 0;
        }
        let mut widths: Vec<u32> = Vec::new();
        let mut y: u32 = 0;
        while y < h
            invariant
                0 <= y <= h,
                wi == w,
                hi == h,
                wi * hi <= u32::MAX,
                wi * char_size.x <= tex_x,
                hi * char_size.y <= tex_y,
                char_size.x > 0,
                char_size.y > 0,
                3 <= bpp <= 4,
                tex_x * tex_y <= u32::MAX,
                pixels@.len() == tex_x * tex_y * bpp,
                expected == glyph_widths(pixels@, bpp as int, tex_x as int, char_size, wi, hi, monospaced),
                widths@ =~= expected.take(y * wi),
            decreases h - y,
        {
            let mut x: u32 = 0;
            while x < w
                invariant
                    0 <= x <= w,
                    0 <= y < h,
                    wi == w,
                    hi == h,
                    wi * hi <= u32::MAX,
                    wi * char_size.x <= tex_x,
                    hi * char_size.y <= tex_y,
                    char_size.x > 0,
                    char_size.y > 0,
                    3 <= bpp <= 4,
                    tex_x * tex_y <= u32::MAX,
                    pixels@.len() == tex_x * tex_y * bpp,
                    expected == glyph_widths(pixels@, bpp as int, tex_x as int, char_size, wi, hi, monospaced),
                    widths@ =~= expected.take(y * wi + x),
                decreases w - x,
            {
                proof {
                    assert((x + 1) * char_size.x <= tex_x) by (nonlinear_arith)
                        requires x + 1 <= wi, wi * char_size.x <= tex_x, char_size.x > 0;
                    assert((y + 1) * char_size.y <= tex_y) by (nonlinear_arith)
                        requires y + 1 <= hi, hi * char_size.y <= tex_y, char_size.y > 0;
                    let i = y * wi + x;
                    assert(i < wi * hi && i % wi == x && i / wi == y) by (nonlinear_arith)
                        requires i == y * wi + x, 0 <= x < wi, 0 <= y < hi;
                }
                let width = if monospaced {
                    char_size.x
                } else {
                    cell_width(pixels, bpp, tex_x, tex_y, char_size, x, y)
                };
                widths.push(width);
                proof {
                    assert(expected.take(y * wi + x + 1) =~= expected.take(y * wi + x).push(expected[y * wi + x]));
                }
                x = x + 1;
            }
            proof {
                assert(y * wi + wi == (y + 1) * wi) by (nonlinear_arith);
            }
            y = y + 1;
        }
        proof {
            assert(expected.len() == wi * hi);
            assert(expected.take(hi * wi) =~= expected) by {
                assert(hi * wi == wi * hi) by (nonlinear_arith);
            }
        }
        proof {
            law_glyph_widths_fit_cells(pixels@, bpp as int, tex_x as int, char_size, wi, hi, monospaced);
        }
        match SpriteSheet::from_texture(texture, char_size) {
            Ok(sprite_sheet) => Ok(BitmapFont { char_size, sprite_sheet, characters, widths }),
            Err(e) => Err(e),
        }
    }

    /// The sprite index of a character, if the font has it.
    pub fn char_index(&self, c: char) -> (r: Option<u32>)
        ensures
            r == lookup(self.spec_characters(), c),
    {
        find_char(&self.characters, c)
    }

    /// The width of the glyph with the given sprite index.
    pub fn index_width(&self, i: u32) -> (r: u32)
        requires
            i < self.spec_widths().len(),
        ensures
            r == self.spec_widths()[i as int],
    {
        self.widths[i as usize]
    }

    pub fn sprite_sheet(&self) -> (r: &SpriteSheet)
        ensures
            r == self.spec_sprite_sheet(),
    {
        &self.sprite_sheet
    }

    /// The size of one glyph cell in pixels.
    pub fn char_size(&self) -> (r: Vector2<u32>)
        ensures
            r == self.spec_char_size(),
    {
        self.char_size
    }

    /// The number of glyphs whose widths the font knows.
    pub fn num_glyphs(&self) -> (r: usize)
        ensures
            r == self.spec_widths().len(),
    {
        self.widths.len()
    }

    /// What drawing the character takes: its sprite index, the width of its
    /// glyph, and the glyph's region of the texture (`None` past the last
    /// sprite). `None` if the font lacks the character.
    pub fn glyph(&self, c: char) -> (r: Option<(u32, u32, Option<SpriteRegion>)>)
        requires
            self.spec_sprite_sheet().wf(),
            lookup(self.spec_characters(), c) matches Some(i) ==> i < self.spec_widths().len(),
        ensures
            r is None <==> lookup(self.spec_characters(), c) is None,
            r matches Some((i, w, g)) ==> {
                let sheet = self.spec_sprite_sheet();
                &&& lookup(self.spec_characters(), c) == Some(i)
                &&& w == self.spec_widths()[i as int]
                &&& g == if i < sheet.spec_num_sprites() {
                    Some(sprite_region(sheet.spec_texture().spec_id(), sheet.spec_texture().spec_size(),
                        sheet.spec_sprite_size(), i as int))
                } else {
                    None
                }
            },
    {
        match self.char_index(c) {
            None => None,
            Some(i) => {
                let w = self.index_width(i);
                let g = self.sprite_sheet.get(i);
                Some((i, w, g))
            },
        }
    }

    /// The sprite indices of the characters of the string; `None` if the font
    /// lacks one of them.
    pub fn index_str(&self, string: &str) -> (r: Option<Vec<u32>>)
        ensures
            r is Some <==> (forall|i: int| 0 <= i < string@.len() ==> #[trigger] lookup(self.spec_characters(), string@[i]) is Some),
            r matches Some(v) ==> v@.len() == string@.len()
                && forall|i: int| 0 <= i < string@.len() ==> Some(#[trigger] v@[i]) == lookup(self.spec_characters(), string@[i]),
    {
        let mut indices: Vec<u32> = Vec::new();
        let n = string.unicode_len();
        let mut i: usize = 0;
        while i < n
            invariant
                n == string@.len(),
                0 <= i <= n,
                indices@.len() == i,
                forall|k: int| 0 <= k < i ==> Some(#[trigger] indices@[k]) == lookup(self.spec_characters(), string@[k]),
            decreases n - i,
        {
            let c = string.get_char(i);
            match self.char_index(c) {
                Some(idx) => indices.push(idx),
                None => return None,
            }
            i = i + 1;
        }
        proof {
            assert forall|k: int| 0 <= k < string@.len() implies #[trigger] lookup(self.spec_characters(), string@[k]) is Some by {
                assert(Some(indices@[k]) == lookup(self.spec_characters(), string@[k]));
            }
        }
        Some(indices)
    }
}

/// The characters of font data whose keys are strings: each key must be a
/// single character.
pub fn char_map_from_keys(entries: Vec<(String, u32)>) -> (r: Result<Vec<(char, u32)>, String>)
    ensures
        r is Ok <==> forall|i: int| 0 <= i < entries@.len() ==> (#[trigger] entries@[i]).0@.len() == 1,
        r matches Ok(v) ==> v@.len() == entries@.len()
            && forall|i: int| 0 <= i < entries@.len() ==> #[trigger] v@[i] == (entries@[i].0@[0], entries@[i].1),
        r matches Ok(v) ==> ((forall|i: int, j: int| 0 <= i < j < entries@.len() ==> #[trigger] entries@[i].0@ != #[trigger] entries@[j].0@)
            ==> keys_distinct(v@)),
        r matches Err(e) ==> exists|k: int| #![trigger entries@[k]]
            0 <= k < entries@.len() && entries@[k].0@.len() != 1
            && (forall|j: int| 0 <= j < k ==> (#[trigger] entries@[j]).0@.len() == 1)
            && e@ == key_length_text(entries@[k].0@, entries@[k].0@.len()),
{
    let mut out: Vec<(char, u32)> = Vec::new();
    let n = entries.len();
    let mut i: usize = 0;
    while i < n
        invariant
            n == entries@.len(),
            0 <= i <= n,
            out@.len() == i,
            forall|k: int| 0 <= k < i ==> (#[trigger] entries@[k]).0@.len() == 1,
            forall|k: int| 0 <= k < i ==> #[trigger] out@[k] == (entries@[k].0@[0], entries@[k].1),
        decreases n - i,
    {
        let key = entries[i].0.as_str();
        let len = key.unicode_len();
        if len != 1 {
            return Err(key_length_message(key, len));
        }
        out.push((key.get_char(0), entries[i].1));
        i = i + 1;
    }
    proof {
        if forall|i: int, j: int| 0 <= i < j < entries@.len() ==> #[trigger] entries@[i].0@ != #[trigger] entries@[j].0@ {
            assert forall|i: int, j: int| 0 <= i < j < out@.len() implies #[trigger] out@[i].0 != #[trigger] out@[j].0 by {
                assert(entries@[i].0@ != entries@[j].0@);
                assert(entries@[i].0@.len() == 1 && entries@[j].0@.len() == 1);
                if out@[i].0 == out@[j].0 {
                    assert(entries@[i].0@ =~= entries@[j].0@);
                }
            }
        }
    }
    Ok(out)
}

/// The text of the error for a font data key of `len` characters.
pub open spec fn key_length_text(key: Seq<char>, len: nat) -> Seq<char> {
    "key '"@ + key + "' in font data las length "@ + decimal(len) + ", expected 1 char"@
}

fn key_length_message(key: &str, len: usize) -> (r: String)
    ensures
        r@ == key_length_text(key@, len as nat),
{
    let mut s = String::new();
    s.append("key '");
    s.append(key);
    s.append("' in font data las length ");
    append_decimal(&mut s, len as u64);
    s.append(", expected 1 char");
    proof {
        assert(s@ =~= key_length_text(key@, len as nat));
    }
    s
}

} // verus!
