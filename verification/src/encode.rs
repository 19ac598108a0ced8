//! Encoding a painted surface as a PNG stream.

use vstd::prelude::*;
use crate::error::OutputError;

verus! {

/// The error type of the `png` crate's encoder, carried through unread.
#[verifier::external_type_specification]
#[verifier::external_body]
pub struct ExEncodingError(png::EncodingError);

/// The byte stream that the `png` encoder, as built into this crate, writes
/// for an image of `width` by `height` pixels with four samples of eight bits
/// each, under its default filter and compression.
pub uninterp spec fn png_rgba8_stream(width: u32, height: u32, pixels: Seq<u8>) -> Seq<u8>;

/// The number of bytes of an RGBA image with eight bits per sample.
pub open spec fn rgba_len(width: u32, height: u32) -> int {
    4 * (width as int * height as int)
}

/// The encoder takes the image: it is not empty and the buffer holds
/// exactly its pixels.
pub open spec fn encodable(width: u32, height: u32, len: nat) -> bool {
    width > 0 && height > 0 && len == rgba_len(width, height)
}

/// Runs `png::Encoder` on a pixel buffer: `Encoder::new` over a byte vector,
/// `set_color` to RGBA, `set_depth` to eight bits, then `write_header`,
/// `Writer::write_image_data` and `Writer::finish`.
///
/// Trusted: the encoder refuses a width or height of zero and a buffer whose
/// length is not four bytes per pixel, and nothing else when it writes into
/// a vector; what it writes depends on the dimensions and the pixels alone.
/// The encoder computes `4 * width * height` in `usize`, so the product must
/// fit.
#[verifier::external_body]
fn encode_rgba8(width: u32, height: u32, pixels: &Vec<u8>) -> (r: Result<
    Vec<u8>,
    png::EncodingError,
>)
    requires
        rgba_len(width, height) <= usize::MAX,
    ensures
        r is Ok <==> encodable(width, height, pixels@.len()),
        r matches Ok(bytes) ==> bytes@ == png_rgba8_stream(width, height, pixels@),
{
    let mut bytes: Vec<u8> = Vec::new();
    let mut encoder = png::Encoder::new(&mut bytes, width, height);
    encoder.set_color(png::ColorType::Rgba);
    encoder.set_depth(png::BitDepth::Eight);
    let mut writer = encoder.write_header()?;
    writer.write_image_data(pixels)?;
    writer.finish()?;
    Ok(bytes)
}

/// The length of the buffer that holds an RGBA image of this size, where
/// the machine can address one.
pub fn rgba_buffer_len(width: u32, height: u32) -> (r: Option<usize>)
    ensures
        match r {
            Some(n) => n == rgba_len(width, height),
            None => rgba_len(width, height) > usize::MAX,
        },
{
    assert(0 <= width as int * height as int <= 0xffff_ffff * 0xffff_ffff) by (nonlinear_arith)
        requires
            0 <= width as int <= 0xffff_ffff,
            0 <= height as int <= 0xffff_ffff,
    ;
    let pixels: u128 = width as u128 * height as u128;
    let bytes: u128 = 4 * pixels;
    if bytes <= usize::MAX as u128 {
        Some(bytes as usize)
    } else {
        None
    }
}

/// What the output stage reports for what the encoder returned: the stream,
/// or that encoding failed.
pub fn encoding_outcome(encoded: Result<Vec<u8>, png::EncodingError>) -> (r: Result<
    Vec<u8>,
    OutputError,
>)
    ensures
        match encoded {
            Ok(bytes) => r == Ok::<Vec<u8>, OutputError>(bytes),
            Err(_) => r == Err::<Vec<u8>, OutputError>(OutputError::EncodeFailed),
        },
{
    match encoded {
        Ok(bytes) => Ok(bytes),
        Err(_) => Err(OutputError::EncodeFailed),
    }
}

/// Turns the pixels read back from a surface into a PNG stream.
///
/// `pixels_read` says whether the read-back succeeded; where it did not,
/// nothing is encoded. The buffer holds `height` rows of `width` pixels,
/// four bytes each.
pub fn save_png(pixels_read: bool, width: u32, height: u32, pixels: &Vec<u8>) -> (r: Result<
    Vec<u8>,
    OutputError,
>)
    ensures
        match r {
            Ok(bytes) => pixels_read && encodable(width, height, pixels@.len()) && bytes@
                == png_rgba8_stream(width, height, pixels@),
            Err(e) => if !pixels_read {
                e == OutputError::SurfaceReadFailed
            } else {
                e == OutputError::EncodeFailed && !encodable(width, height, pixels@.len())
            },
        },
{
    if !pixels_read {
        return Err(OutputError::SurfaceReadFailed);
    }
    match rgba_buffer_len(width, height) {
        None => {
            assert(pixels@.len() == pixels.len());
            Err(OutputError::EncodeFailed)
        },
        Some(_) => encoding_outcome(encode_rgba8(width, height, pixels)),
    }
}

} // verus!
