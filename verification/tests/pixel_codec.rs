use asset_extractor::codec::{decode_pixels, encode_pixels, CodecError, PixelFormat};
use std::io::Write;

fn zlib_compress(data: &[u8]) -> Vec<u8> {
    let mut enc = flate2::write::ZlibEncoder::new(Vec::new(), flate2::Compression::default());
    enc.write_all(data).unwrap();
    enc.finish().unwrap()
}

#[test]
fn channel_reorder_single_pixel() {
    let packed = zlib_compress(&[0xAA, 0x11, 0x22, 0x33]);
    let rgba = decode_pixels(&packed, PixelFormat::Rgb32, 1, 1).unwrap();
    assert_eq!(rgba, vec![0x11, 0x22, 0x33, 0xAA]);
}

#[test]
fn channel_reorder_many_pixels() {
    let raw = vec![
        0x01, 0x02, 0x03, 0x04, //
        0x05, 0x06, 0x07, 0x08, //
        0x09, 0x0A, 0x0B, 0x0C,
    ];
    let rgba = decode_pixels(&zlib_compress(&raw), PixelFormat::Rgb32, 3, 1).unwrap();
    assert_eq!(
        rgba,
        vec![
            0x02, 0x03, 0x04, 0x01, //
            0x06, 0x07, 0x08, 0x05, //
            0x0A, 0x0B, 0x0C, 0x09,
        ]
    );
}

#[test]
fn trailing_partial_group_is_dropped() {
    let raw = vec![0xAA, 0x11, 0x22, 0x33, 0x77, 0x88];
    let rgba = decode_pixels(&zlib_compress(&raw), PixelFormat::Rgb32, 1, 1).unwrap();
    assert_eq!(rgba, vec![0x11, 0x22, 0x33, 0xAA]);
}

#[test]
fn unsupported_format_is_reported() {
    let packed = zlib_compress(&[0u8; 8]);
    assert_eq!(
        decode_pixels(&packed, PixelFormat::Other(3), 1, 2),
        Err(CodecError::UnsupportedPixelFormat)
    );
}

#[test]
fn corrupt_stream_is_decompression_failed() {
    let garbage = vec![0xDE, 0xAD, 0xBE, 0xEF];
    assert_eq!(
        decode_pixels(&garbage, PixelFormat::Rgb32, 1, 1),
        Err(CodecError::DecompressionFailed)
    );
}

#[test]
fn png_round_trip_reproduces_the_buffer() {
    let rgba = vec![
        10u8, 20, 30, 40, //
        50, 60, 70, 80, //
        90, 100, 110, 120, //
        130, 140, 150, 160,
    ];
    let png_bytes = encode_pixels(&rgba, 2, 2).unwrap();
    let decoder = png::Decoder::new(std::io::Cursor::new(&png_bytes[..]));
    let mut reader = decoder.read_info().unwrap();
    let mut buf = vec![0u8; reader.output_buffer_size().unwrap()];
    let info = reader.next_frame(&mut buf).unwrap();
    assert_eq!(info.width, 2);
    assert_eq!(info.height, 2);
    assert_eq!(info.color_type, png::ColorType::Rgba);
    assert_eq!(info.bit_depth, png::BitDepth::Eight);
    buf.truncate(info.buffer_size());
    assert_eq!(buf, rgba);
}

#[test]
fn size_mismatch_is_encoding_failed() {
    let rgba = vec![1u8, 2, 3];
    assert_eq!(encode_pixels(&rgba, 1, 1), Err(CodecError::EncodingFailed));
}

#[test]
fn zero_dimension_is_encoding_failed() {
    let rgba: Vec<u8> = Vec::new();
    assert_eq!(encode_pixels(&rgba, 0, 1), Err(CodecError::EncodingFailed));
    assert_eq!(encode_pixels(&rgba, 1, 0), Err(CodecError::EncodingFailed));
}

#[test]
fn decode_then_encode_whole_bitmap() {
    let packed = zlib_compress(&[
        0xFF, 0x10, 0x20, 0x30, //
        0xFF, 0x40, 0x50, 0x60,
    ]);
    let rgba = decode_pixels(&packed, PixelFormat::Rgb32, 2, 1).unwrap();
    let png_bytes = encode_pixels(&rgba, 2, 1).unwrap();
    let decoder = png::Decoder::new(std::io::Cursor::new(&png_bytes[..]));
    let mut reader = decoder.read_info().unwrap();
    let mut buf = vec![0u8; reader.output_buffer_size().unwrap()];
    let info = reader.next_frame(&mut buf).unwrap();
    buf.truncate(info.buffer_size());
    assert_eq!(buf, vec![0x10, 0x20, 0x30, 0xFF, 0x40, 0x50, 0x60, 0xFF]);
}
