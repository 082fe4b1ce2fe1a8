use image::codecs::png::PngEncoder;
use image::{ColorType, ImageEncoder};
use vstd::prelude::*;


verus! {

/// Width and height of a rendered image, in pixels.
#[derive(Debug, Clone, Copy, PartialEq, Eq, Structural)]
pub struct Resolution(pub u32, pub u32);

impl Resolution {
    /// A resolution of `x` by `y` pixels.
    pub fn new(x: u32, y: u32) -> (r: Resolution)
        ensures
            r.0 == x,
            r.1 == y,
    {
        Resolution(x, y)
    }
}

/// The PNG file that the image encoder writes for an 8-bit RGB image.
pub uninterp spec fn png_of(width: u32, height: u32, pixels: Seq<u8>) -> Seq<u8>;

/// Relies on image's `PngEncoder::write_image` with `ColorType::Rgb8`: writes
/// the PNG file of the pixels into memory. It panics unless the buffer holds
/// exactly three bytes per pixel. Writing into a `Vec` cannot fail, and the
/// header of an 8-bit RGB image is refused only for a zero width or height.
#[verifier::external_body]
fn png_encode(width: u32, height: u32, pixels: &[u8]) -> (r: Option<Vec<u8>>)
    requires
        pixels@.len() == width * height * 3,
    ensures
        width > 0 && height > 0 ==> r is Some,
        r matches Some(b) ==> b@ == png_of(width, height, pixels@),
{
    let mut out: Vec<u8> = Vec::new();
    let written = PngEncoder::new(&mut out).write_image(pixels, width, height, ColorType::Rgb8);
    written.ok().map(|_| out)
}

/// The PNG file of an image of `resolution` whose pixels the first
/// `3 * width * height` bytes of `buffer` hold row by row, three bytes (red,
/// green, blue) per pixel; bytes past those are not part of the image.
pub fn encode_image(resolution: &Resolution, buffer: &[u8]) -> (r: Vec<u8>)
    requires
        resolution.0 > 0,
        resolution.1 > 0,
        buffer@.len() >= resolution.0 * resolution.1 * 3,
    ensures
        r@ == png_of(
            resolution.0,
            resolution.1,
            buffer@.subrange(0, resolution.0 * resolution.1 * 3),
        ),
{
    let (w, h) = (resolution.0, resolution.1);
    assert(w as int * h as int <= 0xffff_fffe_0000_0001) by (nonlinear_arith)
        requires
            w <= 0xffff_ffff,
            h <= 0xffff_ffff,
    ;
    let pixels = (w as u64) * (h as u64);
    assert(pixels as int * 3 == w * h * 3);
    let available = buffer.len();
    assert(pixels as int * 3 <= available);
    let len = (pixels as u128 * 3) as usize;
    let (image, _) = buffer.split_at(len);
    png_encode(w, h, image).unwrap()
}

} // verus!
