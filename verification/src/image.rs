//! Turning the finished framebuffer into the bytes of a PNG file.

use vstd::prelude::*;

verus! {

/// A pixel with four channels of eight bits.
#[derive(Copy, Clone, Debug, PartialEq, Eq)]
pub struct Rgba8 {
    pub r: u8,
    pub g: u8,
    pub b: u8,
    pub a: u8,
}

/// Why a framebuffer could not be encoded.
#[derive(Copy, Clone, Debug, PartialEq, Eq)]
pub enum ImageError {
    /// The width or the height is 0.
    ZeroSize,
    /// The width or the height does not fit in 32 bits.
    TooLarge,
    /// The framebuffer does not hold width times height pixels.
    SizeMismatch,
    /// The encoder failed.
    Encoder,
}

/// Makes `png::EncodingError`, the error of the `png` crate's encoder, known
/// as an opaque type. Nothing is claimed of its content.
#[verifier::external_type_specification]
#[verifier::external_body]
pub struct ExEncodingError(png::EncodingError);

/// The outcome of the `png` crate's encoder for an image of the given width
/// and height with eight-bit RGBA samples `rgba`, written to memory: the bytes
/// of the PNG file, or `None` where the encoder fails.
pub uninterp spec fn png_rgba8(rgba: Seq<u8>, width: u32, height: u32) -> Option<Seq<u8>>;

/// Channel `k` of a pixel, in the order red, green, blue, alpha.
pub open spec fn channel(pixel: Rgba8, k: int) -> u8 {
    if k == 0 {
        pixel.r
    } else if k == 1 {
        pixel.g
    } else if k == 2 {
        pixel.b
    } else {
        pixel.a
    }
}

/// The samples of a sequence of pixels: four bytes for each pixel, pixel by pixel.
pub open spec fn packed(pixels: Seq<Rgba8>) -> Seq<u8> {
    Seq::new(4 * pixels.len(), |i: int| channel(pixels[i / 4], i % 4))
}

/// The first fault of a framebuffer of `len` pixels that is to be encoded as
/// an image of the given width and height, if it has one.
pub open spec fn image_fault(len: nat, width: usize, height: usize) -> Option<ImageError> {
    if width == 0 || height == 0 {
        Some(ImageError::ZeroSize)
    } else if width > u32::MAX || height > u32::MAX {
        Some(ImageError::TooLarge)
    } else if len != width * height {
        Some(ImageError::SizeMismatch)
    } else {
        None
    }
}

/// Lays the pixels out as the samples of an RGBA image.
pub fn pack_rgba(pixels: &Vec<Rgba8>) -> (bytes: Vec<u8>)
    ensures
        bytes@ == packed(pixels@),
{
    let mut rgba_data: Vec<u8> = Vec::new();
    for i in 0..pixels.len()
        invariant
            rgba_data@ =~= packed(pixels@.take(i as int)),
    {
        let pixel = pixels[i];
        rgba_data.push(pixel.r);
        rgba_data.push(pixel.g);
        rgba_data.push(pixel.b);
        rgba_data.push(pixel.a);
    }
    assert(pixels@.take(pixels@.len() as int) =~= pixels@);
    rgba_data
}

/// Runs the `png` crate's encoder on an in-memory writer: `Encoder::new` with
/// the width and height, color type RGBA and bit depth eight, `write_header`,
/// `write_image_data` with the samples, and the end of the file as the writer
/// is dropped. The contract claims that the outcome depends on the samples,
/// the width and the height alone: whether the encoder succeeds, and the
/// bytes it writes when it does. It does not claim that the encoder succeeds.
/// The `requires` leaves out the inputs on which the encoder reports a format
/// error or its size arithmetic overflows.
#[verifier::external_body]
fn png_encode_rgba8(rgba: &Vec<u8>, width: u32, height: u32) -> (r: Result<
    Vec<u8>,
    png::EncodingError,
>)
    requires
        width >= 1,
        height >= 1,
        rgba@.len() == 4 * width * height,
    ensures
        match r {
            Ok(bytes) => png_rgba8(rgba@, width, height) == Some(bytes@),
            Err(_) => png_rgba8(rgba@, width, height) is None,
        },
{
    let mut out: Vec<u8> = Vec::new();
    let mut encoder = png::Encoder::new(&mut out, width, height);
    encoder.set_color(png::ColorType::RGBA);
    encoder.set_depth(png::BitDepth::Eight);
    let mut writer = encoder.write_header()?;
    writer.write_image_data(rgba)?;
    drop(writer);
    Ok(out)
}

/// What the library returns for an outcome of the encoder: the bytes of the
/// file, or `ImageError::Encoder` whatever the encoder's error was.
pub fn finish_encoding(outcome: Result<Vec<u8>, png::EncodingError>) -> (r: Result<
    Vec<u8>,
    ImageError,
>)
    ensures
        match outcome {
            Ok(bytes) => r == Ok::<Vec<u8>, ImageError>(bytes),
            Err(_) => r == Err::<Vec<u8>, ImageError>(ImageError::Encoder),
        },
{
    match outcome {
        Ok(bytes) => Ok(bytes),
        Err(_) => Err(ImageError::Encoder),
    }
}

/// Encodes a framebuffer of `width` times `height` pixels in row-major order
/// as a PNG file with eight-bit RGBA samples, and returns the bytes of the
/// file. A framebuffer with a fault is refused before the encoder is called;
/// one without is handed to the encoder, and the result is the encoder's: its
/// bytes where it succeeds, `ImageError::Encoder` where it fails.
pub fn encode_image(color_buffer: &Vec<Rgba8>, width: usize, height: usize) -> (r: Result<
    Vec<u8>,
    ImageError,
>)
    ensures
        match image_fault(color_buffer@.len(), width, height) {
            Some(e) => r == Err::<Vec<u8>, ImageError>(e),
            None => match png_rgba8(packed(color_buffer@), width as u32, height as u32) {
                Some(bytes) => r is Ok && r->Ok_0@ == bytes,
                None => r == Err::<Vec<u8>, ImageError>(ImageError::Encoder),
            },
        },
{
    if width == 0 || height == 0 {
        return Err(ImageError::ZeroSize);
    }
    if width > u32::MAX as usize || height > u32::MAX as usize {
        return Err(ImageError::TooLarge);
    }
    let len = color_buffer.len();
    match width.checked_mul(height) {
        None => {
            return Err(ImageError::SizeMismatch);
        },
        Some(n) => {
            if len != n {
                return Err(ImageError::SizeMismatch);
            }
        },
    }
    let rgba_data = pack_rgba(color_buffer);
    assert(4 * (width as u32) * (height as u32) == 4 * (width * height)) by (nonlinear_arith)
        requires
            width <= u32::MAX,
            height <= u32::MAX,
    ;
    finish_encoding(png_encode_rgba8(&rgba_data, width as u32, height as u32))
}

} // verus!
