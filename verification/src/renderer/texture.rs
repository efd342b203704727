//! Textures: their pixel formats, and images decoded from files' bytes.

use vstd::prelude::*;
use crate::math::Vector2;
use crate::renderer::{RenderID, gl_enums};

verus! {

/// A texture unit as a shader sees it.
#[derive(Debug, Copy, Clone, Default, PartialEq, PartialOrd)]
pub struct Sampler2D(pub i32);

/// Pixel formats of textures the renderer creates itself.
#[derive(Debug, Copy, Clone, PartialEq, Eq, PartialOrd, Ord)]
pub enum Format {
    RgbU8,
    RgbaU8,
    RgbaF16,
}

impl Format {
    /// The OpenGL type of one channel.
    pub fn base_type(&self) -> (r: u32)
        ensures
            r == (match *self {
                Format::RgbU8 | Format::RgbaU8 => gl_enums::UNSIGNED_BYTE,
                Format::RgbaF16 => gl_enums::FLOAT,
            }),
    {
        match self {
            Format::RgbU8 | Format::RgbaU8 => gl_enums::UNSIGNED_BYTE,
            Format::RgbaF16 => gl_enums::FLOAT,
        }
    }

    /// The OpenGL internal format (the format's own enumeration value).
    pub fn internal(&self) -> (r: u32)
        ensures
            r == (match *self {
                Format::RgbaU8 => gl_enums::RGBA8,
                Format::RgbU8 => gl_enums::RGB8,
                Format::RgbaF16 => gl_enums::RGB16F,
            }),
    {
        match self {
            Format::RgbaU8 => gl_enums::RGBA8,
            Format::RgbU8 => gl_enums::RGB8,
            Format::RgbaF16 => gl_enums::RGB16F,
        }
    }

    /// The OpenGL format of the pixel data handed to the texture.
    pub fn data(&self) -> (r: u32)
        ensures
            r == (match *self {
                Format::RgbU8 => gl_enums::RGB,
                Format::RgbaU8 | Format::RgbaF16 => gl_enums::RGBA,
            }),
    {
        match self {
            Format::RgbU8 => gl_enums::RGB,
            Format::RgbaU8 | Format::RgbaF16 => gl_enums::RGBA,
        }
    }
}

/// The order in which the corners of a sprite are listed.
#[derive(Debug, Copy, Clone, PartialEq, Eq, Structural)]
pub enum TexCoordFormat {
    LeftRightTopBottom,
    RightLeftTopBottom,
    LeftRightBottomTop,
    RightLeftBottomTop,
}

/// Why an image could not be turned into a texture.
#[derive(Debug, Clone, PartialEq, Eq)]
pub enum ImageError {
    Io(String),
    Decode(String),
    Unsupported(String),
}

/// The pixel layout of a decoded image.
#[derive(Debug, Copy, Clone, PartialEq, Eq, Structural)]
pub enum ImageKind {
    Luma8,
    LumaA8,
    Rgb8,
    Rgba8,
    Luma16,
    LumaA16,
    Rgb16,
    Rgba16,
    Rgb32F,
    Rgba32F,
    Other,
}

/// An image decoded from the bytes of an image file.
pub struct DecodedImage {
    pub width: u32,
    pub height: u32,
    pub kind: ImageKind,
    pub pixels: Vec<u8>,
}

/// What the `image` crate reads from the header of an image file, with the
/// format guessed from the bytes: width, height and pixel layout; `None`
/// where decoding fails.
pub uninterp spec fn image_decoding(bytes: Seq<u8>) -> Option<(u32, u32, ImageKind)>;

/// Decodes an image file held in memory with `image::io::Reader` (format
/// guessed from the first bytes, default limits). Whether it succeeds, and
/// the size and pixel layout, depend on the bytes alone. The pixel bytes do
/// not: the JPEG decoder picks a vector routine by what the processor
/// offers, and these round slightly differently. So only their number is
/// stated, for 8-bit RGB and RGBA: the decoder fills a buffer of width times
/// height times bytes per pixel.
#[verifier::external_body]
fn decode_image(bytes: &[u8]) -> (r: Result<DecodedImage, ImageError>)
    ensures
        r is Ok <==> image_decoding(bytes@) is Some,
        r matches Ok(img) ==> ({
            let (w, h, k) = image_decoding(bytes@)->0;
            &&& img.width == w
            &&& img.height == h
            &&& img.kind == k
            &&& k == ImageKind::Rgb8 ==> img.pixels@.len() == w * h * 3
            &&& k == ImageKind::Rgba8 ==> img.pixels@.len() == w * h * 4
        }),
        r matches Err(e) ==> e is Io || e is Decode,
{
    let reader = image::io::Reader::new(std::io::Cursor::new(bytes))
        .with_guessed_format()
        .map_err(|e| ImageError::Io(e.to_string()))?;
    let img = reader.decode().map_err(|e| ImageError::Decode(e.to_string()))?;
    Ok(DecodedImage { width: img.width(), height: img.height(), kind: image_kind(&img), pixels: img.into_bytes() })
}

#[verifier::external_type_specification]
#[verifier::external_body]
pub struct ExDynamicImage(image::DynamicImage);

/// The variant of an `image::DynamicImage`.
#[verifier::external_body]
fn image_kind(img: &image::DynamicImage) -> ImageKind {
    match img {
        image::DynamicImage::ImageLuma8(_) => ImageKind::Luma8,
        image::DynamicImage::ImageLumaA8(_) => ImageKind::LumaA8,
        image::DynamicImage::ImageRgb8(_) => ImageKind::Rgb8,
        image::DynamicImage::ImageRgba8(_) => ImageKind::Rgba8,
        image::DynamicImage::ImageLuma16(_) => ImageKind::Luma16,
        image::DynamicImage::ImageLumaA16(_) => ImageKind::LumaA16,
        image::DynamicImage::ImageRgb16(_) => ImageKind::Rgb16,
        image::DynamicImage::ImageRgba16(_) => ImageKind::Rgba16,
        image::DynamicImage::ImageRgb32F(_) => ImageKind::Rgb32F,
        image::DynamicImage::ImageRgba32F(_) => ImageKind::Rgba32F,
        _ => ImageKind::Other,
    }
}

/// The name of a pixel layout.
pub open spec fn kind_name(kind: ImageKind) -> Seq<char> {
    match kind {
        ImageKind::Luma8 => "Luma8"@,
        ImageKind::LumaA8 => "LumaA8"@,
        ImageKind::Rgb8 => "Rgb8"@,
        ImageKind::Rgba8 => "Rgba8"@,
        ImageKind::Luma16 => "Luma16"@,
        ImageKind::LumaA16 => "LumaA16"@,
        ImageKind::Rgb16 => "Rgb16"@,
        ImageKind::Rgba16 => "Rgba16"@,
        ImageKind::Rgb32F => "Rgb32F"@,
        ImageKind::Rgba32F => "Rgba32F"@,
        ImageKind::Other => "Other"@,
    }
}

fn kind_str(kind: ImageKind) -> (r: &'static str)
    ensures
        r@ == kind_name(kind),
{
    match kind {
        ImageKind::Luma8 => "Luma8",
        ImageKind::LumaA8 => "LumaA8",
        ImageKind::Rgb8 => "Rgb8",
        ImageKind::Rgba8 => "Rgba8",
        ImageKind::Luma16 => "Luma16",
        ImageKind::LumaA16 => "LumaA16",
        ImageKind::Rgb16 => "Rgb16",
        ImageKind::Rgba16 => "Rgba16",
        ImageKind::Rgb32F => "Rgb32F",
        ImageKind::Rgba32F => "Rgba32F",
        ImageKind::Other => "Other",
    }
}

/// The text of the error for an image whose pixel layout textures do not
/// support.
pub open spec fn unsupported_text(kind: ImageKind) -> Seq<char> {
    "Image format "@ + kind_name(kind) + " is unsupported"@
}

fn unsupported_message(kind: ImageKind) -> (r: String)
    ensures
        r@ == unsupported_text(kind),
{
    let mut s = String::new();
    s.append("Image format ");
    s.append(kind_str(kind));
    s.append(" is unsupported");
    proof {
        assert(s@ =~= unsupported_text(kind));
    }
    s
}

/// The formats (internal, data) of a texture made from an image with the
/// given pixel layout; only 8-bit RGB and RGBA are supported.
pub open spec fn image_formats(kind: ImageKind) -> Option<(u32, u32)> {
    match kind {
        ImageKind::Rgb8 => Some((gl_enums::RGB8, gl_enums::RGB)),
        ImageKind::Rgba8 => Some((gl_enums::RGBA8, gl_enums::RGBA)),
        _ => None,
    }
}

/// Images of 8-bit RGB and RGBA pixels, and only those, make textures: RGB
/// pixels with internal format RGB8 (0x8051) and data format RGB (0x1907),
/// RGBA pixels with RGBA8 (0x8058) and RGBA (0x1908), whose pixels take 3 and
/// 4 bytes.
pub proof fn law_textures_take_8bit_rgb_and_rgba(kind: ImageKind)
    ensures
        image_formats(kind) is Some <==> (kind == ImageKind::Rgb8 || kind == ImageKind::Rgba8),
        kind == ImageKind::Rgb8 ==> image_formats(kind) == Some((0x8051u32, 0x1907u32)),
        kind == ImageKind::Rgba8 ==> image_formats(kind) == Some((0x8058u32, 0x1908u32)),
        kind == ImageKind::Rgb8 ==> spec_bytes_per_pixel((image_formats(kind)->0).1) == Some(3u32),
        kind == ImageKind::Rgba8 ==> spec_bytes_per_pixel((image_formats(kind)->0).1) == Some(4u32),
{
}

/// A texture: its OpenGL name, size and pixel formats.
pub struct Texture {
    id: RenderID,
    size: Vector2<u32>,
    internal_format: u32,
    data_format: u32,
}

/// An image ready to be uploaded as a texture.
pub struct TextureImage {
    pub size: Vector2<u32>,
    pub internal_format: u32,
    pub data_format: u32,
    pub pixels: Vec<u8>,
}

/// Number of bytes per pixel of a data format, if textures support it.
pub open spec fn spec_bytes_per_pixel(data_format: u32) -> Option<u32> {
    if data_format == gl_enums::RGBA {
        Some(4)
    } else if data_format == gl_enums::RGB {
        Some(3)
    } else {
        None
    }
}

impl Texture {
    /// The image with the formats its texture takes; fails for pixel layouts
    /// other than 8-bit RGB and RGBA.
    pub fn load(img: DecodedImage) -> (r: Result<TextureImage, ImageError>)
        ensures
            image_formats(img.kind) is None <==> r is Err,
            r matches Err(e) ==> e is Unsupported && e->Unsupported_0@ == unsupported_text(img.kind),
            r matches Ok(t) ==> ({
                let (i, d) = image_formats(img.kind)->0;
                &&& t.size == Vector2 { x: img.width, y: img.height }
                &&& t.internal_format == i
                &&& t.data_format == d
                &&& t.pixels@ == img.pixels@
            }),
            img.kind == ImageKind::Rgb8 ==> (r matches Ok(t) && t.internal_format == gl_enums::RGB8 && t.data_format == gl_enums::RGB),
            img.kind == ImageKind::Rgba8 ==> (r matches Ok(t) && t.internal_format == gl_enums::RGBA8 && t.data_format == gl_enums::RGBA),
            (img.kind != ImageKind::Rgb8 && img.kind != ImageKind::Rgba8) ==> r is Err,
    {
        proof {
            law_textures_take_8bit_rgb_and_rgba(img.kind);
        }
        let (internal_format, data_format) = match img.kind {
            ImageKind::Rgb8 => (gl_enums::RGB8, gl_enums::RGB),
            ImageKind::Rgba8 => (gl_enums::RGBA8, gl_enums::RGBA),
            _ => return Err(ImageError::Unsupported(unsupported_message(img.kind))),
        };
        Ok(TextureImage {
            size: Vector2 { x: img.width, y: img.height },
            internal_format,
            data_format,
            pixels: img.pixels,
        })
    }

    /// Decodes an image file held in memory and gives the image with the
    /// formats its texture takes.
    pub fn from_bytes(bytes: &[u8]) -> (r: Result<TextureImage, ImageError>)
        ensures
            r is Ok <==> (image_decoding(bytes@) matches Some(dec) && image_formats(dec.2) is Some),
            r matches Ok(t) ==> ({
                let (w, h, k) = image_decoding(bytes@)->0;
                let (i, fmt) = image_formats(k)->0;
                &&& t.size == Vector2 { x: w, y: h }
                &&& t.internal_format == i
                &&& t.data_format == fmt
                &&& t.pixels@.len() == w * h * spec_bytes_per_pixel(fmt)->0
            }),
            image_decoding(bytes@) is None ==> (r matches Err(e) && (e is Io || e is Decode)),
            image_decoding(bytes@) matches Some((w, h, k)) ==> {
                &&& k == ImageKind::Rgb8 ==> (r matches Ok(t) && t.internal_format == gl_enums::RGB8
                    && t.data_format == gl_enums::RGB && t.pixels@.len() == w * h * 3)
                &&& k == ImageKind::Rgba8 ==> (r matches Ok(t) && t.internal_format == gl_enums::RGBA8
                    && t.data_format == gl_enums::RGBA && t.pixels@.len() == w * h * 4)
                &&& (k != ImageKind::Rgb8 && k != ImageKind::Rgba8) ==> (r matches Err(e) && e is Unsupported)
            },
    {
        proof {
            if let Some((_, _, k)) = image_decoding(bytes@) {
                law_textures_take_8bit_rgb_and_rgba(k);
            }
        }
        let img = decode_image(bytes)?;
        Self::load(img)
    }

    /// The texture that OpenGL created under the given name for the image.
    pub fn new(id: RenderID, size: Vector2<u32>, internal_format: u32, data_format: u32) -> (r: Self)
        ensures
            r.spec_id() == id,
            r.spec_size() == size,
            r.spec_internal_format() == internal_format,
            r.spec_data_format() == data_format,
    {
        Texture { id, size, internal_format, data_format }
    }

    /// The description of a texture of the given size and format, under the
    /// given name.
    pub fn create(id: RenderID, size: Vector2<u32>, format: Format) -> (r: Self)
        ensures
            r.spec_id() == id,
            r.spec_size() == size,
            r.spec_internal_format() == format.internal_spec(),
            r.spec_data_format() == format.data_spec(),
    {
        Texture { id, size, internal_format: format.internal(), data_format: format.data() }
    }

    pub closed spec fn spec_id(&self) -> RenderID {
        self.id
    }

    pub closed spec fn spec_size(&self) -> Vector2<u32> {
        self.size
    }

    pub closed spec fn spec_internal_format(&self) -> u32 {
        self.internal_format
    }

    pub closed spec fn spec_data_format(&self) -> u32 {
        self.data_format
    }

    pub fn id(&self) -> (r: RenderID)
        ensures
            r == self.spec_id(),
    {
        self.id
    }

    pub fn size(&self) -> (r: &Vector2<u32>)
        ensures
            *r == self.spec_size(),
    {
        &self.size
    }

    pub fn data_format(&self) -> (r: u32)
        ensures
            r == self.spec_data_format(),
    {
        self.data_format
    }

    pub fn internal_format(&self) -> (r: u32)
        ensures
            r == self.spec_internal_format(),
    {
        self.internal_format
    }

    /// Bytes per pixel of the texture's data format (RGBA: 4, RGB: 3).
    pub fn bytes_per_pixel(&self) -> (r: u32)
        requires
            spec_bytes_per_pixel(self.spec_data_format()) is Some,
        ensures
            Some(r) == spec_bytes_per_pixel(self.spec_data_format()),
    {
        if self.data_format == gl_enums::RGBA {
            4
        } else {
            3
        }
    }

    /// Whether the pixel data has the size the texture needs: width times
    /// height times bytes per pixel.
    pub fn data_len_matches(&self, data: &[u8]) -> (r: bool)
        requires
            spec_bytes_per_pixel(self.spec_data_format()) is Some,
        ensures
            r == (data@.len() == self.spec_size().x * self.spec_size().y
                * spec_bytes_per_pixel(self.spec_data_format())->0),
    {
        let bpp = self.bytes_per_pixel() as u128;
        let w = self.size.x as u128;
        let h = self.size.y as u128;
        proof {
            assert(w * h <= 0x1_0000_0000_0000_0000int) by (nonlinear_arith)
                requires w <= 0xffff_ffffint, h <= 0xffff_ffffint;
            assert(w * h * bpp <= 0x4_0000_0000_0000_0000int) by (nonlinear_arith)
                requires w * h <= 0x1_0000_0000_0000_0000int, bpp <= 4int;
        }
        data.len() as u128 == w * h * bpp
    }

    /// Forgets the OpenGL name once the texture was deleted.
    pub fn clear_id(&mut self)
        ensures
            final(self).spec_id() == 0,
            final(self).spec_size() == old(self).spec_size(),
            final(self).spec_data_format() == old(self).spec_data_format(),
            final(self).spec_internal_format() == old(self).spec_internal_format(),
    {
        self.id = 0;
    }
}

impl Format {
    pub open spec fn internal_spec(&self) -> u32 {
        match *self {
            Format::RgbaU8 => gl_enums::RGBA8,
            Format::RgbU8 => gl_enums::RGB8,
            Format::RgbaF16 => gl_enums::RGB16F,
        }
    }

    pub open spec fn data_spec(&self) -> u32 {
        match *self {
            Format::RgbU8 => gl_enums::RGB,
            Format::RgbaU8 | Format::RgbaF16 => gl_enums::RGBA,
        }
    }
}

} // verus!
