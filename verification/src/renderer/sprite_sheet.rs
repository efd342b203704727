//! Sprite sheets: textures cut into a grid of equally sized sprites,
//! numbered row by row.

use vstd::prelude::*;
use crate::math::Vector2;
use crate::text::{append_decimal, decimal};
use crate::renderer::RenderID;
use crate::renderer::texture::{Texture, TexCoordFormat};

verus! {

/// The pixel rectangle of one sprite in its texture, with the texture's
/// size (texture coordinates are the rectangle's edges divided by it).
#[derive(Clone, Copy, Debug, PartialEq, Eq)]
pub struct SpriteRegion {
    pub texture_id: RenderID,
    pub left_x: u32,
    pub right_x: u32,
    pub top_y: u32,
    pub bottom_y: u32,
    pub total_x: u32,
    pub total_y: u32,
}

/// A texture cut into sprites of one size.
pub struct SpriteSheet {
    texture: Texture,
    sprite_size: Vector2<u32>,
    num_sprites: u32,
}

/// The text of the error for a texture whose size is no multiple of the
/// sprite size: both sizes as pairs.
pub open spec fn not_multiple_text(texture_size: Vector2<u32>, sprite_size: Vector2<u32>) -> Seq<char> {
    "Texture size is not multiple of sprite size. (("@ + decimal(texture_size.x as nat) + ", "@
        + decimal(texture_size.y as nat) + ") | ("@ + decimal(sprite_size.x as nat) + ", "@
        + decimal(sprite_size.y as nat) + "))"@
}

fn not_multiple_message(texture_size: Vector2<u32>, sprite_size: Vector2<u32>) -> (r: String)
    ensures
        r@ == not_multiple_text(texture_size, sprite_size),
{
    let mut s = String::new();
    s.append("Texture size is not multiple of sprite size. ((");
    append_decimal(&mut s, texture_size.x as u64);
    s.append(", ");
    append_decimal(&mut s, texture_size.y as u64);
    s.append(") | (");
    append_decimal(&mut s, sprite_size.x as u64);
    s.append(", ");
    append_decimal(&mut s, sprite_size.y as u64);
    s.append("))");
    proof {
        assert(s@ =~= not_multiple_text(texture_size, sprite_size));
    }
    s
}

/// Sprites per row of the grid.
pub open spec fn columns(texture_size: Vector2<u32>, sprite_size: Vector2<u32>) -> int {
    texture_size.x as int / sprite_size.x as int
}

/// Rows of the grid.
pub open spec fn rows(texture_size: Vector2<u32>, sprite_size: Vector2<u32>) -> int {
    texture_size.y as int / sprite_size.y as int
}

/// The region of sprite `idx` (counted row by row) in a grid of the given
/// sizes.
pub open spec fn sprite_region(id: RenderID, texture_size: Vector2<u32>, sprite_size: Vector2<u32>, idx: int) -> SpriteRegion {
    let cols = columns(texture_size, sprite_size);
    let xi = idx % cols;
    let yi = idx / cols;
    SpriteRegion {
        texture_id: id,
        left_x: (xi * sprite_size.x) as u32,
        right_x: ((xi + 1) * sprite_size.x) as u32,
        top_y: (yi * sprite_size.y) as u32,
        bottom_y: ((yi + 1) * sprite_size.y) as u32,
        total_x: texture_size.x,
        total_y: texture_size.y,
    }
}

proof fn lemma_region_cell(t: Vector2<u32>, s: Vector2<u32>, idx: int)
    requires
        s.x > 0,
        s.y > 0,
        0 <= idx < columns(t, s) * rows(t, s),
    ensures
        columns(t, s) > 0,
        (idx % columns(t, s) + 1) * s.x <= t.x,
        (idx / columns(t, s) + 1) * s.y <= t.y,
        0 <= (idx % columns(t, s)) * s.x,
        0 <= (idx / columns(t, s)) * s.y,
{
    let cols = columns(t, s);
    let rs = rows(t, s);
    assert(cols > 0 && rs > 0) by (nonlinear_arith)
        requires idx < cols * rs, idx >= 0, rs >= 0, cols >= 0;
    let xi = idx % cols;
    let yi = idx / cols;
    assert(0 <= xi < cols);
    assert(0 <= yi < rs) by (nonlinear_arith)
        requires idx < cols * rs, yi == idx / cols, cols > 0, idx >= 0;
    assert((xi + 1) * s.x <= cols * s.x) by (nonlinear_arith)
        requires xi + 1 <= cols, s.x > 0;
    assert(cols * s.x <= t.x) by (nonlinear_arith)
        requires cols == t.x as int / s.x as int, s.x > 0, t.x >= 0;
    assert((yi + 1) * s.y <= rs * s.y) by (nonlinear_arith)
        requires yi + 1 <= rs, s.y > 0;
    assert(rs * s.y <= t.y) by (nonlinear_arith)
        requires rs == t.y as int / s.y as int, s.y > 0, t.y >= 0;
    assert(0 <= xi * s.x) by (nonlinear_arith) requires xi >= 0;
    assert(0 <= yi * s.y) by (nonlinear_arith) requires yi >= 0;
}

/// Sprites are counted row by row: each region is one sprite wide and high
/// and lies inside the texture, the first sprite of a row starts at the left
/// edge and those of the first row at the top, the next sprite in a row
/// starts where the previous one ends, and the sprite one row further down
/// starts where this one ends, below it.
pub proof fn law_sprites_counted_row_by_row(id: RenderID, t: Vector2<u32>, s: Vector2<u32>, idx: int)
    requires
        s.x > 0,
        s.y > 0,
        0 <= idx < columns(t, s) * rows(t, s),
    ensures
        ({
            let cols = columns(t, s);
            let n = columns(t, s) * rows(t, s);
            let g = sprite_region(id, t, s, idx);
            &&& g.right_x - g.left_x == s.x
            &&& g.bottom_y - g.top_y == s.y
            &&& g.right_x <= t.x && g.bottom_y <= t.y
            &&& idx % cols == 0 ==> g.left_x == 0
            &&& idx < cols ==> g.top_y == 0
            &&& (idx + 1 < n && (idx + 1) % cols != 0) ==> {
                let next = sprite_region(id, t, s, idx + 1);
                next.left_x == g.right_x && next.top_y == g.top_y
            }
            &&& idx + cols < n ==> {
                let below = sprite_region(id, t, s, idx + cols);
                below.top_y == g.bottom_y && below.left_x == g.left_x
            }
        }),
{
    let cols = columns(t, s);
    let n = cols * rows(t, s);
    lemma_region_cell(t, s, idx);
    let xi = idx % cols;
    let yi = idx / cols;
    assert((xi + 1) * s.x == xi * s.x + s.x) by (nonlinear_arith);
    assert((yi + 1) * s.y == yi * s.y + s.y) by (nonlinear_arith);
    if idx < cols {
        assert(yi == 0) by (nonlinear_arith)
            requires yi == idx / cols, 0 <= idx < cols;
    }
    if idx % cols == 0 {
        assert(xi * s.x == 0);
    }
    if idx + 1 < n && (idx + 1) % cols != 0 {
        lemma_region_cell(t, s, idx + 1);
        assert((idx + 1) % cols == xi + 1 && (idx + 1) / cols == yi) by (nonlinear_arith)
            requires xi == idx % cols, yi == idx / cols, (idx + 1) % cols != 0, cols > 0, idx >= 0;
    }
    if idx + cols < n {
        lemma_region_cell(t, s, idx + cols);
        assert((idx + cols) % cols == xi && (idx + cols) / cols == yi + 1) by (nonlinear_arith)
            requires xi == idx % cols, yi == idx / cols, cols > 0, idx >= 0;
    }
}

impl SpriteSheet {
    pub closed spec fn spec_texture(&self) -> &Texture {
        &self.texture
    }

    pub closed spec fn spec_sprite_size(&self) -> Vector2<u32> {
        self.sprite_size
    }

    pub closed spec fn spec_num_sprites(&self) -> u32 {
        self.num_sprites
    }

    /// The sprite sizes are positive, and the sprites fill the texture.
    pub open spec fn wf(&self) -> bool {
        let t = self.spec_texture().spec_size();
        let s = self.spec_sprite_size();
        &&& s.x > 0 && s.y > 0
        &&& t.x % s.x == 0 && t.y % s.y == 0
        &&& self.spec_num_sprites() == columns(t, s) * rows(t, s)
    }

    /// Cuts the texture into sprites of the given size; fails if the sprites
    /// do not tile the texture exactly.
    pub fn from_texture(texture: Texture, sprite_size: Vector2<u32>) -> (r: Result<Self, String>)
        requires
            sprite_size.x > 0,
            sprite_size.y > 0,
            columns(texture.spec_size(), sprite_size) * rows(texture.spec_size(), sprite_size) <= u32::MAX,
        ensures
            r is Ok <==> (texture.spec_size().x % sprite_size.x == 0 && texture.spec_size().y % sprite_size.y == 0),
            r matches Ok(s) ==> s.wf() && *s.spec_texture() == texture && s.spec_sprite_size() == sprite_size,
            r matches Err(e) ==> e@ == not_multiple_text(texture.spec_size(), sprite_size),
    {
        let size = *texture.size();
        if size.x % sprite_size.x != 0 || size.y % sprite_size.y != 0 {
            Err(not_multiple_message(size, sprite_size))
        } else {
            let cols = size.x / sprite_size.x;
            let rs = size.y / sprite_size.y;
            Ok(SpriteSheet { texture, sprite_size, num_sprites: cols * rs })
        }
    }

    pub fn sprite_size(&self) -> (r: &Vector2<u32>)
        ensures
            *r == self.spec_sprite_size(),
    {
        &self.sprite_size
    }

    pub fn texture(&self) -> (r: &Texture)
        ensures
            r == self.spec_texture(),
    {
        &self.texture
    }

    pub fn num_sprites(&self) -> (r: u32)
        ensures
            r == self.spec_num_sprites(),
    {
        self.num_sprites
    }

    /// The region of sprite `idx`, counted row by row; `None` past the last
    /// sprite. Every region lies inside the texture.
    pub fn get(&self, idx: u32) -> (r: Option<SpriteRegion>)
        requires
            self.wf(),
        ensures
            r is None <==> idx >= self.spec_num_sprites(),
            r matches Some(g) ==> g == sprite_region(self.spec_texture().spec_id(), self.spec_texture().spec_size(),
                self.spec_sprite_size(), idx as int),
            r matches Some(g) ==> g.left_x < g.right_x <= g.total_x && g.top_y < g.bottom_y <= g.total_y,
    {
        if idx >= self.num_sprites {
            return None;
        }
        let total_x = self.texture.size().x;
        let total_y = self.texture.size().y;
        let sx = self.sprite_size.x;
        let sy = self.sprite_size.y;
        let cols = total_x / sx;
        let ghost rs = total_y as int / sy as int;
        proof {
            assert(cols > 0) by (nonlinear_arith)
                requires idx < cols * rs, idx >= 0, rs >= 0, cols >= 0;
        }
        let x_idx = idx % cols;
        let y_idx = idx / cols;
        proof {
            assert(x_idx + 1 <= cols);
            assert(y_idx + 1 <= rs) by (nonlinear_arith)
                requires idx < cols * rs, y_idx == idx / cols, cols > 0, idx >= 0;
            assert((x_idx + 1) * sx <= cols * sx) by (nonlinear_arith)
                requires x_idx + 1 <= cols, sx > 0;
            assert(cols * sx <= total_x) by (nonlinear_arith)
                requires cols == total_x as int / sx as int, sx > 0, total_x >= 0;
            assert((y_idx + 1) * sy <= rs * sy) by (nonlinear_arith)
                requires y_idx + 1 <= rs, sy > 0;
            assert(rs * sy <= total_y) by (nonlinear_arith)
                requires rs == total_y as int / sy as int, sy > 0, total_y >= 0;
            assert(x_idx * sx < (x_idx + 1) * sx) by (nonlinear_arith) requires sx > 0;
            assert(y_idx * sy < (y_idx + 1) * sy) by (nonlinear_arith) requires sy > 0;
        }
        let left_x = x_idx * sx;
        let right_x = (x_idx + 1) * sx;
        let top_y = y_idx * sy;
        let bottom_y = (y_idx + 1) * sy;
        Some(SpriteRegion {
            texture_id: self.texture.id(),
            left_x,
            right_x,
            top_y,
            bottom_y,
            total_x,
            total_y,
        })
    }
}

/// The corners of a region, in pixels, in the order the format lists them:
/// the first two along its top or bottom edge, then the other two below or
/// above them.
pub open spec fn corners_spec(g: SpriteRegion, format: TexCoordFormat) -> Seq<(u32, u32)> {
    let (l, r, t, b) = (g.left_x, g.right_x, g.top_y, g.bottom_y);
    match format {
        TexCoordFormat::LeftRightTopBottom => seq![(l, t), (r, t), (l, b), (r, b)],
        TexCoordFormat::LeftRightBottomTop => seq![(l, b), (r, b), (l, t), (r, t)],
        TexCoordFormat::RightLeftTopBottom => seq![(r, t), (l, t), (r, b), (l, b)],
        TexCoordFormat::RightLeftBottomTop => seq![(r, b), (l, b), (r, t), (l, t)],
    }
}

/// Whether the format's name lists the top edge before the bottom one.
pub open spec fn top_first(format: TexCoordFormat) -> bool {
    format is LeftRightTopBottom || format is RightLeftTopBottom
}

/// Whether the format's name lists the left side before the right one.
pub open spec fn left_first(format: TexCoordFormat) -> bool {
    format is LeftRightTopBottom || format is LeftRightBottomTop
}

/// Each format lists the corners its name spells: the first two corners lie
/// on the edge the name gives first (top or bottom) and the last two on the
/// other; the first and third corner lie on the side the name gives first
/// (left or right) and the second and fourth on the other.
pub proof fn law_corners_follow_format_name(g: SpriteRegion, format: TexCoordFormat)
    ensures
        ({
            let c = corners_spec(g, format);
            let (first_y, second_y) = if top_first(format) { (g.top_y, g.bottom_y) } else { (g.bottom_y, g.top_y) };
            let (first_x, second_x) = if left_first(format) { (g.left_x, g.right_x) } else { (g.right_x, g.left_x) };
            &&& c.len() == 4
            &&& c[0].1 == first_y && c[1].1 == first_y
            &&& c[2].1 == second_y && c[3].1 == second_y
            &&& c[0].0 == first_x && c[2].0 == first_x
            &&& c[1].0 == second_x && c[3].0 == second_x
        }),
{
}

impl SpriteRegion {
    /// The corners of the region in pixels, in the order of `format`; a
    /// texture coordinate is a corner divided by the texture's size.
    pub fn corners(&self, format: TexCoordFormat) -> (r: [(u32, u32); 4])
        ensures
            r@ == corners_spec(*self, format),
            ({
                let (first_y, second_y) = if top_first(format) { (self.top_y, self.bottom_y) } else { (self.bottom_y, self.top_y) };
                let (first_x, second_x) = if left_first(format) { (self.left_x, self.right_x) } else { (self.right_x, self.left_x) };
                &&& r[0] == (first_x, first_y)
                &&& r[1] == (second_x, first_y)
                &&& r[2] == (first_x, second_y)
                &&& r[3] == (second_x, second_y)
            }),
    {
        let (l, r, t, b) = (self.left_x, self.right_x, self.top_y, self.bottom_y);
        let c = match format {
            TexCoordFormat::LeftRightTopBottom => [(l, t), (r, t), (l, b), (r, b)],
            TexCoordFormat::LeftRightBottomTop => [(l, b), (r, b), (l, t), (r, t)],
            TexCoordFormat::RightLeftTopBottom => [(r, t), (l, t), (r, b), (l, b)],
            TexCoordFormat::RightLeftBottomTop => [(r, b), (l, b), (r, t), (l, t)],
        };
        proof {
            assert(c@ =~= corners_spec(*self, format));
            law_corners_follow_format_name(*self, format);
        }
        c
    }
}

} // verus!
