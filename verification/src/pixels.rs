//! RGBA pixel buffers: cutting tiles, judging and forcing transparency, and
//! PNG encoding.

use crate::error::Error;
use image::codecs::png::{CompressionType, FilterType, PngEncoder};
use image::{ColorType, ImageEncoder};
use vstd::prelude::*;

verus! {

/// An image as the contracts see it: its size and its bytes, four per pixel, row
/// after row.
pub struct ImageView {
    pub width: nat,
    pub height: nat,
    pub pixels: Seq<u8>,
}

/// How the PNG encoder compresses.
#[derive(Clone, Copy, Debug, PartialEq, Eq, Structural)]
pub enum Compression {
    Default,
    Fast,
    Best,
}

/// Which filter the PNG encoder applies to each scanline.
#[derive(Clone, Copy, Debug, PartialEq, Eq, Structural)]
pub enum Filter {
    NoFilter,
    Sub,
    Up,
    Avg,
    Paeth,
    Adaptive,
}

/// The bytes of the PNG file that the encoder writes for an RGBA image of the
/// given size and bytes, under the given settings.
pub uninterp spec fn png_encoding(
    pixels: Seq<u8>,
    width: u32,
    height: u32,
    compression: Compression,
    filter: Filter,
) -> Seq<u8>;

/// The number of bytes of an RGBA image.
pub open spec fn buffer_len(width: nat, height: nat) -> nat {
    4 * width * height
}

/// The smaller of two numbers.
pub open spec fn least(a: int, b: int) -> int {
    if a <= b {
        a
    } else {
        b
    }
}

/// The rectangle of `w` by `h` pixels at `(x, y)` of `img`, cut down to what
/// lies inside `img`.
pub open spec fn cropped(img: ImageView, x: nat, y: nat, w: nat, h: nat) -> ImageView {
    let x0 = least(x as int, img.width as int);
    let y0 = least(y as int, img.height as int);
    let cw = least(w as int, img.width - x0);
    let ch = least(h as int, img.height - y0);
    ImageView {
        width: cw as nat,
        height: ch as nat,
        pixels: Seq::new(
            (4 * cw * ch) as nat,
            |i: int| img.pixels[4 * ((y0 + (i / 4) / cw) * img.width + x0 + (i / 4) % cw) + i % 4],
        ),
    }
}

/// The image has a pixel.
pub open spec fn has_pixels(img: ImageView) -> bool {
    img.width > 0 && img.height > 0
}

/// Every pixel has alpha zero.
pub open spec fn alpha_all_zero(pixels: Seq<u8>) -> bool {
    forall|i: int| 0 <= i < pixels.len() && i % 4 == 3 ==> pixels[i] == 0
}

/// The same pixels with every alpha byte set to `alpha`.
pub open spec fn with_alpha(pixels: Seq<u8>, alpha: u8) -> Seq<u8> {
    Seq::new(pixels.len(), |i: int| if i % 4 == 3 { alpha } else { pixels[i] })
}

/// `image::imageops::crop_imm` on an RGBA buffer of `width` by `height`, then
/// `SubImage::to_image`: the copy of the rectangle, which `crop_imm` first
/// cuts down to the image's bounds.
#[verifier::external_body]
fn crop_imm(pixels: &Vec<u8>, width: u32, height: u32, x: u32, y: u32, w: u32, h: u32) -> (tile:
    Vec<u8>)
    requires
        pixels.len() == buffer_len(width as nat, height as nat),
    ensures
        tile@ == cropped(
            ImageView { width: width as nat, height: height as nat, pixels: pixels@ },
            x as nat,
            y as nat,
            w as nat,
            h as nat,
        ).pixels,
{
    let whole = image::RgbaImage::from_raw(width, height, pixels.clone()).unwrap();
    image::imageops::crop_imm(&whole, x, y, w, h).to_image().into_raw()
}

/// `PngEncoder::new_with_quality` and `ImageEncoder::write_image` for RGBA
/// bytes, into a fresh buffer. `write_image` panics unless the buffer has four
/// bytes per pixel. The encoder refuses an image without pixels and nothing
/// else, and a write into a `Vec` does not fail; the bytes written depend on
/// the arguments alone.
#[verifier::external_body]
fn png_encode(
    pixels: &Vec<u8>,
    width: u32,
    height: u32,
    compression: Compression,
    filter: Filter,
) -> (r: Result<Vec<u8>, image::ImageError>)
    requires
        pixels.len() == buffer_len(width as nat, height as nat),
    ensures
        r is Ok <==> (width > 0 && height > 0),
        r matches Ok(bytes) ==> bytes@ == png_encoding(pixels@, width, height, compression, filter),
{
    let level = match compression {
        Compression::Default => CompressionType::Default,
        Compression::Fast => CompressionType::Fast,
        Compression::Best => CompressionType::Best,
    };
    let filter = match filter {
        Filter::NoFilter => FilterType::NoFilter,
        Filter::Sub => FilterType::Sub,
        Filter::Up => FilterType::Up,
        Filter::Avg => FilterType::Avg,
        Filter::Paeth => FilterType::Paeth,
        Filter::Adaptive => FilterType::Adaptive,
    };
    let mut out = Vec::new();
    PngEncoder::new_with_quality(&mut out, level, filter).write_image(pixels, width, height, ColorType::Rgba8).map(|_| out)
}

/// An RGBA image: `width * height` pixels of four bytes, row after row.
pub struct RgbaImage {
    width: u32,
    height: u32,
    pixels: Vec<u8>,
}

impl View for RgbaImage {
    type V = ImageView;

    closed spec fn view(&self) -> ImageView {
        ImageView { width: self.width as nat, height: self.height as nat, pixels: self.pixels@ }
    }
}

impl RgbaImage {
    /// The buffer has exactly four bytes for each pixel.
    pub closed spec fn wf(&self) -> bool {
        self.pixels.len() == buffer_len(self.width as nat, self.height as nat)
    }

    /// The image of the given size over `pixels`, where that many bytes are
    /// given; `None` for a buffer of any other length.
    pub fn from_raw(width: u32, height: u32, pixels: Vec<u8>) -> (img: Option<RgbaImage>)
        ensures
            img is Some <==> pixels.len() == buffer_len(width as nat, height as nat),
            img matches Some(i) ==> i.wf() && i@ == (ImageView {
                width: width as nat,
                height: height as nat,
                pixels: pixels@,
            }),
    {
        assert(width * height <= 0xffff_ffff * 0xffff_ffff) by (nonlinear_arith)
            requires
                width <= 0xffff_ffff,
                height <= 0xffff_ffff,
        ;
        assert(4 * width * height == 4 * (width * height)) by (nonlinear_arith);
        let area: u128 = (width as u128) * (height as u128);
        let expected: u128 = 4u128 * area;
        if pixels.len() as u128 == expected {
            Some(RgbaImage { width, height, pixels })
        } else {
            None
        }
    }

    /// The width in pixels.
    pub fn width(&self) -> (w: u32)
        ensures
            w == self@.width,
    {
        self.width
    }

    /// The height in pixels.
    pub fn height(&self) -> (h: u32)
        ensures
            h == self@.height,
    {
        self.height
    }

    /// The bytes, four per pixel, row after row.
    pub fn pixels(&self) -> (p: &Vec<u8>)
        ensures
            p@ == self@.pixels,
    {
        &self.pixels
    }

    /// The rectangle of `w` by `h` pixels at `(x, y)`, cut down to what lies
    /// inside the image.
    pub fn crop(&self, x: u32, y: u32, w: u32, h: u32) -> (tile: RgbaImage)
        requires
            self.wf(),
        ensures
            tile.wf(),
            tile@ == cropped(self@, x as nat, y as nat, w as nat, h as nat),
    {
        let x0 = if x <= self.width { x } else { self.width };
        let y0 = if y <= self.height { y } else { self.height };
        let cw = if w <= self.width - x0 { w } else { self.width - x0 };
        let ch = if h <= self.height - y0 { h } else { self.height - y0 };
        let pixels = crop_imm(&self.pixels, self.width, self.height, x, y, w, h);
        RgbaImage { width: cw, height: ch, pixels }
    }

    /// Whether every pixel has alpha zero. An image without pixels is fully
    /// transparent.
    pub fn is_fully_transparent(&self) -> (t: bool)
        requires
            self.wf(),
        ensures
            t == alpha_all_zero(self@.pixels),
            !has_pixels(self@) ==> t,
    {
        assert(self.width == 0 || self.height == 0 ==> 4 * self.width * self.height == 0)
            by (nonlinear_arith);
        let mut i: usize = 3;
        while i < self.pixels.len()
            invariant
                i % 4 == 3,
                has_pixels(self@) || self.pixels.len() == 0,
                forall|j: int| 0 <= j < i && j % 4 == 3 ==> self.pixels@[j] == 0,
            decreases self.pixels.len() + 4 - i,
        {
            if self.pixels[i] != 0 {
                return false;
            }
            if self.pixels.len() - i < 4 {
                return true;
            }
            i += 4;
        }
        true
    }

    /// The same image with every alpha byte set to `alpha`.
    pub fn with_alpha(&self, alpha: u8) -> (out: RgbaImage)
        requires
            self.wf(),
        ensures
            out.wf(),
            out@.width == self@.width,
            out@.height == self@.height,
            out@.pixels == with_alpha(self@.pixels, alpha),
    {
        let mut pixels: Vec<u8> = Vec::new();
        let mut i: usize = 0;
        while i < self.pixels.len()
            invariant
                i <= self.pixels.len(),
                pixels@.len() == i,
                forall|j: int| 0 <= j < i ==> pixels@[j] == (if j % 4 == 3 {
                    alpha
                } else {
                    self.pixels@[j]
                }),
            decreases self.pixels.len() - i,
        {
            pixels.push(if i % 4 == 3 { alpha } else { self.pixels[i] });
            i += 1;
        }
        assert(pixels@ =~= with_alpha(self.pixels@, alpha));
        RgbaImage { width: self.width, height: self.height, pixels }
    }

    /// The image as a PNG file. An image without pixels has none.
    pub fn encode_png(&self, compression: Compression, filter: Filter) -> (r: Result<
        Vec<u8>,
        Error,
    >)
        requires
            self.wf(),
        ensures
            r is Ok <==> has_pixels(self@),
            r matches Ok(bytes) ==> bytes@ == png_encoding(
                self@.pixels,
                self@.width as u32,
                self@.height as u32,
                compression,
                filter,
            ),
            r matches Err(e) ==> e is Image,
    {
        match png_encode(&self.pixels, self.width, self.height, compression, filter) {
            Ok(bytes) => Ok(bytes),
            Err(err) => Err(Error::from_image(err)),
        }
    }
}

} // verus!
