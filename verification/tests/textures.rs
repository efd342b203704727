use client::math::Vector2;
use client::renderer::font::{char_map_from_keys, BitmapFont};
use client::renderer::sprite_sheet::SpriteSheet;
use client::renderer::texture::{Format, ImageError, TexCoordFormat, Texture};

const RGBA_2X1_PNG: [u8; 72] = [
    137, 80, 78, 71, 13, 10, 26, 10, 0, 0, 0, 13, 73, 72, 68, 82, 0, 0, 0, 2, 0, 0, 0, 1, 8, 6, 0, 0, 0,
    244, 34, 127, 138, 0, 0, 0, 15, 73, 68, 65, 84, 120, 156, 99, 248, 207, 192, 240, 31, 8, 27, 0, 16,
    121, 3, 126, 125, 99, 206, 215, 0, 0, 0, 0, 73, 69, 78, 68, 174, 66, 96, 130,
];

const GRAY_1X1_PNG: [u8; 67] = [
    137, 80, 78, 71, 13, 10, 26, 10, 0, 0, 0, 13, 73, 72, 68, 82, 0, 0, 0, 1, 0, 0, 0, 1, 8, 0, 0, 0, 0,
    58, 126, 155, 85, 0, 0, 0, 10, 73, 68, 65, 84, 120, 156, 99, 224, 2, 0, 0, 12, 0, 11, 103, 58, 43,
    156, 0, 0, 0, 0, 73, 69, 78, 68, 174, 66, 96, 130,
];

#[test]
fn an_rgba_png_decodes_to_its_pixels() {
    let img = Texture::from_bytes(&RGBA_2X1_PNG).unwrap();
    assert_eq!(img.size, Vector2::new(2, 1));
    assert_eq!(img.internal_format, 0x8058);
    assert_eq!(img.data_format, 0x1908);
    assert_eq!(img.pixels, vec![255, 0, 0, 255, 0, 255, 0, 128]);
}

#[test]
fn a_gray_png_is_unsupported() {
    match Texture::from_bytes(&GRAY_1X1_PNG) {
        Err(ImageError::Unsupported(e)) => assert_eq!(e, "Image format Luma8 is unsupported"),
        _ => panic!("a gray image became a texture"),
    }
}

#[test]
fn garbage_is_not_an_image() {
    match Texture::from_bytes(&[1, 2, 3, 4]) {
        Err(ImageError::Decode(_)) | Err(ImageError::Io(_)) => {}
        _ => panic!("garbage became a texture"),
    }
}

#[test]
fn texture_formats() {
    let t = Texture::create(3, Vector2::new(4, 2), Format::RgbU8);
    assert_eq!(t.id(), 3);
    assert_eq!(t.bytes_per_pixel(), 3);
    assert!(t.data_len_matches(&[0; 24]));
    assert!(!t.data_len_matches(&[0; 23]));
    assert_eq!(Format::RgbaF16.base_type(), 0x1406);
}

#[test]
fn sprite_sheet_regions() {
    let t = Texture::create(1, Vector2::new(8, 4), Format::RgbaU8);
    let sheet = SpriteSheet::from_texture(t, Vector2::new(4, 2)).unwrap();
    assert_eq!(sheet.num_sprites(), 4);
    let s = sheet.get(3).unwrap();
    assert_eq!((s.left_x, s.right_x, s.top_y, s.bottom_y), (4, 8, 2, 4));
    assert!(sheet.get(4).is_none());
    let bad = SpriteSheet::from_texture(Texture::create(1, Vector2::new(9, 4), Format::RgbaU8), Vector2::new(4, 2));
    assert_eq!(bad.err(), Some("Texture size is not multiple of sprite size. ((9, 4) | (4, 2))".to_string()));
}

#[test]
fn glyph_widths_end_at_the_last_lit_column() {
    let t = Texture::create(1, Vector2::new(4, 1), Format::RgbaU8);
    let mut pixels = vec![0u8; 16];
    pixels[4] = 255;
    pixels[2 * 4 + 3] = 255;
    let font = BitmapFont::from_texture(t, Vector2::new(2, 1), vec![('a', 0), ('b', 1)], false, &pixels).unwrap();
    assert_eq!(font.char_index('b'), Some(1));
    assert_eq!(font.char_index('z'), None);
    assert_eq!(font.index_width(0), 1);
    assert_eq!(font.index_width(1), 2);
    assert_eq!(font.index_str("ab"), Some(vec![0, 1]));
    assert_eq!(font.index_str("az"), None);
}

#[test]
fn font_keys_must_be_single_characters() {
    assert_eq!(char_map_from_keys(vec![("a".to_string(), 3)]), Ok(vec![('a', 3)]));
    assert_eq!(
        char_map_from_keys(vec![("a".to_string(), 1), ("ab".to_string(), 3), ("".to_string(), 4)]),
        Err("key 'ab' in font data las length 2, expected 1 char".to_string())
    );
}

#[test]
fn sprite_corners_follow_the_format() {
    let t = Texture::create(1, Vector2::new(8, 4), Format::RgbaU8);
    let sheet = SpriteSheet::from_texture(t, Vector2::new(4, 2)).unwrap();
    let s = sheet.get(1).unwrap();
    assert_eq!(s.corners(TexCoordFormat::LeftRightTopBottom), [(4, 0), (8, 0), (4, 2), (8, 2)]);
    assert_eq!(s.corners(TexCoordFormat::RightLeftBottomTop), [(8, 2), (4, 2), (8, 0), (4, 0)]);
}

#[test]
fn glyphs_of_a_font() {
    let t = Texture::create(1, Vector2::new(4, 1), Format::RgbaU8);
    let mut pixels = vec![0u8; 16];
    pixels[4] = 255;
    let font = BitmapFont::from_texture(t, Vector2::new(2, 1), vec![('a', 0), ('b', 1)], false, &pixels).unwrap();
    assert_eq!(font.num_glyphs(), 2);
    let (i, w, g) = font.glyph('a').unwrap();
    assert_eq!((i, w), (0, 1));
    let g = g.unwrap();
    assert_eq!((g.left_x, g.right_x, g.top_y, g.bottom_y), (0, 2, 0, 1));
    assert!(font.glyph('z').is_none());
}

#[test]
fn a_font_whose_cells_do_not_tile_is_refused() {
    let t = Texture::create(1, Vector2::new(5, 1), Format::RgbaU8);
    let pixels = vec![0u8; 20];
    let r = BitmapFont::from_texture(t, Vector2::new(2, 1), vec![('a', 0)], true, &pixels);
    assert_eq!(r.err(), Some("Texture size is not multiple of sprite size. ((5, 1) | (2, 1))".to_string()));
}

#[test]
fn formats_order_as_their_internal_formats() {
    assert!(Format::RgbU8 < Format::RgbaU8);
    assert!(Format::RgbaU8 < Format::RgbaF16);
    assert!(Format::RgbU8.internal() < Format::RgbaU8.internal());
    assert!(Format::RgbaU8.internal() < Format::RgbaF16.internal());
}
