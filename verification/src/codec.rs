//! Pixel codec: decompression of packed pixel data, channel reordering, and
//! encoding of the resulting RGBA buffer as a PNG image.
//!
//! Packed data holds zlib-compressed pixels in `(alpha, red, green, blue)`
//! order; decoding yields a flat `(red, green, blue, alpha)` buffer in
//! row-major order, which encoding turns into a PNG byte stream.

use std::io::Read;

use vstd::prelude::*;

verus! {

/// The pixel layout a bitmap tag declares for its packed data.
#[derive(Clone, Copy, PartialEq, Eq, Structural, Debug)]
pub enum PixelFormat {
    /// 32 bits per pixel, packed as alpha, red, green, blue.
    Rgb32,
    /// Any other declared layout, carried as the raw format byte.
    Other(u8),
}

/// Why decoding or encoding one asset's pixel data failed.
#[derive(Clone, Copy, PartialEq, Eq, Structural, Debug)]
pub enum CodecError {
    /// The packed bytes are not a valid zlib stream.
    DecompressionFailed,
    /// The declared pixel format is not the supported 32-bit packed one.
    UnsupportedPixelFormat,
    /// The PNG encoder refused the buffer (bad dimensions or size mismatch).
    EncodingFailed,
}

/// What zlib inflation returns for a given compressed byte sequence:
/// `None` when the bytes are not a well-formed stream, and the decompressed
/// bytes otherwise. Inflation is a function of the input bytes alone.
pub uninterp spec fn inflate_of(packed: Seq<u8>) -> Option<Seq<u8>>;

/// Relies on flate2's `ZlibDecoder` together with `Read::read_to_end`:
/// decompressing a byte buffer either fails or yields the inflated bytes,
/// and the outcome depends on the input bytes alone.
#[verifier::external_body]
pub(crate) fn zlib_inflate(packed: &Vec<u8>) -> (r: Option<Vec<u8>>)
    ensures
        r is Some <==> inflate_of(packed@) is Some,
        r is Some ==> r.unwrap()@ == inflate_of(packed@).unwrap(),
{
    let mut decoder = flate2::read::ZlibDecoder::new(&packed[..]);
    let mut out: Vec<u8> = Vec::new();
    match decoder.read_to_end(&mut out) {
        Ok(_) => Some(out),
        Err(_) => None,
    }
}

/// The PNG byte stream the encoder produces for an RGBA buffer with the
/// given dimensions (8 bits per channel, RGBA color type, default options).
/// The encoder's output is a function of these arguments alone.
pub uninterp spec fn png_encode_of(rgba: Seq<u8>, width: u32, height: u32) -> Seq<u8>;

/// Whether the PNG encoder's internal row and buffer sizes for these
/// dimensions fit in `usize` on this machine.
pub open spec fn spec_encoder_fits(width: u32, height: u32) -> bool {
    (4 * (width as int) + 1) * ((height as int) + 1) <= usize::MAX as int
}

/// Relies on png's `Encoder`, `Writer::write_image_data` and
/// `Writer::finish`, configured for 8-bit RGBA: encoding succeeds exactly
/// when both dimensions are nonzero and the buffer holds four bytes per
/// pixel, and the produced bytes depend on the arguments alone.
#[verifier::external_body]
fn png_encode(rgba: &Vec<u8>, width: u32, height: u32) -> (r: Option<Vec<u8>>)
    requires
        spec_encoder_fits(width, height),
    ensures
        r is Some <==> (width > 0 && height > 0 && rgba@.len() == 4 * (width as int) * (
        height as int)),
        r is Some ==> r.unwrap()@ == png_encode_of(rgba@, width, height),
{
    let mut out: Vec<u8> = Vec::new();
    let mut encoder = png::Encoder::new(&mut out, width, height);
    encoder.set_color(png::ColorType::Rgba);
    encoder.set_depth(png::BitDepth::Eight);
    let ok = match encoder.write_header() {
        Ok(mut w) => w.write_image_data(&rgba[..]).is_ok() && w.finish().is_ok(),
        Err(_) => false,
    };
    if ok {
        Some(out)
    } else {
        None
    }
}

/// The channel reordering applied to a decompressed buffer: each complete
/// four-byte group `[a, r, g, b]` becomes `[r, g, b, a]`; trailing bytes
/// that do not fill a group are dropped.
pub open spec fn spec_reorder(s: Seq<u8>) -> Seq<u8> {
    Seq::new(((s.len() / 4) * 4) as nat, |i: int| if i % 4 == 3 { s[(i / 4) * 4] } else { s[i + 1] })
}

/// Reorders a decompressed buffer of `[a, r, g, b]` groups into
/// `[r, g, b, a]` groups.
fn reorder_channels(raw: &Vec<u8>) -> (out: Vec<u8>)
    ensures
        out@ == spec_reorder(raw@),
{
    let len: usize = raw.len();
    let n: usize = len / 4;
    let mut out: Vec<u8> = Vec::new();
    let mut g: usize = 0;
    proof {
        assert(4 * (raw@.len() / 4) <= raw@.len()) by (nonlinear_arith);
    }
    while g < n
        invariant
            n == raw@.len() / 4,
            4 * n as int <= raw@.len(),
            raw@.len() <= usize::MAX,
            g <= n,
            out@.len() == 4 * g as int,
            forall|i: int| 0 <= i < 4 * g as int ==> out@[i] == spec_reorder(raw@)[i],
        decreases n - g,
    {
        let base: usize = 4 * g;
        out.push(raw[base + 1]);
        out.push(raw[base + 2]);
        out.push(raw[base + 3]);
        out.push(raw[base]);
        proof {
            assert forall|i: int| 4 * g as int <= i < 4 * (g + 1) as int implies out@[i]
                == spec_reorder(raw@)[i] by {
                assert(i / 4 == g as int && (i / 4) * 4 == 4 * g as int) by (nonlinear_arith)
                    requires
                        4 * g as int <= i < 4 * g as int + 4,
                ;
            }
        }
        g = g + 1;
    }
    proof {
        assert(out@ =~= spec_reorder(raw@));
    }
    out
}

/// The decode half of the codec as a value: the RGBA buffer for packed
/// pixel data, or the reason it cannot be produced. The format is checked
/// first; then the packed bytes must inflate; the inflated bytes are
/// reordered group by group.
pub open spec fn spec_decode(packed: Seq<u8>, format: PixelFormat) -> Result<Seq<u8>, CodecError> {
    if format != PixelFormat::Rgb32 {
        Err(CodecError::UnsupportedPixelFormat)
    } else {
        match inflate_of(packed) {
            None => Err(CodecError::DecompressionFailed),
            Some(raw) => Ok(spec_reorder(raw)),
        }
    }
}

/// Decodes packed pixel data into a flat RGBA buffer, row-major,
/// top-to-bottom: decompresses the packed bytes, then reorders every
/// `[a, r, g, b]` group into `[r, g, b, a]`. Only the 32-bit packed format
/// is supported; the width and height describe the intended image and do
/// not affect decoding.
pub fn decode_pixels(packed: &Vec<u8>, format: PixelFormat, width: u32, height: u32) -> (r: Result<
    Vec<u8>,
    CodecError,
>)
    ensures
        r is Ok <==> spec_decode(packed@, format) is Ok,
        r is Ok ==> r.unwrap()@ == spec_decode(packed@, format).unwrap(),
        r is Err ==> r.unwrap_err() == spec_decode(packed@, format)->Err_0,
{
    match format {
        PixelFormat::Rgb32 => {
            match zlib_inflate(packed) {
                None => Err(CodecError::DecompressionFailed),
                Some(raw) => Ok(reorder_channels(&raw)),
            }
        },
        PixelFormat::Other(_) => Err(CodecError::UnsupportedPixelFormat),
    }
}

/// The encode half of the codec as a value: the PNG bytes for an RGBA
/// buffer, or `None` where the encoder refuses it (a zero dimension, a
/// buffer not holding four bytes per pixel, or sizes beyond this machine).
pub open spec fn spec_encode(rgba: Seq<u8>, width: u32, height: u32) -> Option<Seq<u8>> {
    if spec_encoder_fits(width, height) && width > 0 && height > 0 && rgba.len() == 4 * (
    width as int) * (height as int) {
        Some(png_encode_of(rgba, width, height))
    } else {
        None
    }
}

/// Encodes a flat RGBA buffer as a PNG byte stream, 8 bits per channel,
/// RGBA color type. Succeeds exactly when both dimensions are nonzero, the
/// buffer holds four bytes per pixel, and the encoder's sizes fit this
/// machine; fails with `EncodingFailed` otherwise.
pub fn encode_pixels(rgba: &Vec<u8>, width: u32, height: u32) -> (r: Result<Vec<u8>, CodecError>)
    ensures
        r is Ok <==> spec_encode(rgba@, width, height) is Some,
        r is Ok ==> r.unwrap()@ == spec_encode(rgba@, width, height).unwrap(),
        r is Err ==> r.unwrap_err() == CodecError::EncodingFailed,
{
    let wide: u128 = 4 * (width as u128) + 1;
    let tall: u128 = (height as u128) + 1;
    proof {
        assert(wide * tall <= 0x4_0000_0001u128 * 0x1_0000_0001u128) by (nonlinear_arith)
            requires
                0 <= wide <= 0x4_0000_0001u128,
                0 <= tall <= 0x1_0000_0001u128,
        ;
    }
    let fits: bool = wide * tall <= usize::MAX as u128;
    if !fits {
        return Err(CodecError::EncodingFailed);
    }
    match png_encode(rgba, width, height) {
        Some(bytes) => Ok(bytes),
        None => Err(CodecError::EncodingFailed),
    }
}

/// Decoding then encoding as one value: what the bitmap path of the
/// materializer produces for packed data with the given format and size.
pub open spec fn spec_decode_encode(packed: Seq<u8>, format: PixelFormat, width: u32, height: u32) -> Result<
    Seq<u8>,
    CodecError,
> {
    match spec_decode(packed, format) {
        Err(e) => Err(e),
        Ok(rgba) => match spec_encode(rgba, width, height) {
            None => Err(CodecError::EncodingFailed),
            Some(bytes) => Ok(bytes),
        },
    }
}

/// Runs the full codec path for one bitmap asset: decode the packed data,
/// then encode the RGBA buffer as a PNG.
pub fn decode_and_encode(packed: &Vec<u8>, format: PixelFormat, width: u32, height: u32) -> (r:
    Result<Vec<u8>, CodecError>)
    ensures
        r is Ok <==> spec_decode_encode(packed@, format, width, height) is Ok,
        r is Ok ==> r.unwrap()@ == spec_decode_encode(packed@, format, width, height).unwrap(),
        r is Err ==> r.unwrap_err() == spec_decode_encode(packed@, format, width, height)->Err_0,
{
    match decode_pixels(packed, format, width, height) {
        Err(e) => Err(e),
        Ok(rgba) => encode_pixels(&rgba, width, height),
    }
}

} // verus!
