//! Tag stream reader: parses a bundle's raw bytes into an ordered sequence
//! of typed tag records.
//!
//! A container starts with a three-byte signature (plain or
//! zlib-compressed body), a version byte and a little-endian declared
//! length, followed by a bit-packed frame rectangle, frame rate and frame
//! count, and then length-prefixed tag records. Only the record kinds the
//! extractor acts on are given structure; every other record is kept as
//! `Other`.

use vstd::prelude::*;

use crate::codec::{inflate_of, PixelFormat};

verus! {

/// A typed tag record, the unit of both extraction passes.
pub enum TagRecord {
    /// Maps asset ids to fully qualified symbol names.
    SymbolClassDeclaration { entries: Vec<(u16, String)> },
    /// A raw binary payload registered under an asset id.
    BinaryDataAsset { asset_id: u16, payload: Vec<u8> },
    /// A lossless bitmap: packed pixel bytes plus their declared layout.
    LosslessBitmapAsset {
        asset_id: u16,
        width: u32,
        height: u32,
        pixel_format: PixelFormat,
        packed_data: Vec<u8>,
    },
    /// Any record kind the extractor ignores.
    Other,
}

/// The mathematical shape of a tag record: sequences in place of vectors
/// and character sequences in place of strings.
pub enum TagView {
    SymbolClassDeclaration { entries: Seq<(u16, Seq<char>)> },
    BinaryDataAsset { asset_id: u16, payload: Seq<u8> },
    LosslessBitmapAsset {
        asset_id: u16,
        width: u32,
        height: u32,
        pixel_format: PixelFormat,
        packed_data: Seq<u8>,
    },
    Other,
}

impl DeepView for TagRecord {
    type V = TagView;

    open spec fn deep_view(&self) -> TagView {
        match self {
            TagRecord::SymbolClassDeclaration { entries } => TagView::SymbolClassDeclaration {
                entries: entries.deep_view(),
            },
            TagRecord::BinaryDataAsset { asset_id, payload } => TagView::BinaryDataAsset {
                asset_id: *asset_id,
                payload: payload@,
            },
            TagRecord::LosslessBitmapAsset { asset_id, width, height, pixel_format, packed_data } => TagView::LosslessBitmapAsset {
                asset_id: *asset_id,
                width: *width,
                height: *height,
                pixel_format: *pixel_format,
                packed_data: packed_data@,
            },
            TagRecord::Other => TagView::Other,
        }
    }
}

/// The reader's only error: the container cannot be enumerated, with a
/// byte-offset hint (relative to the movie body for tag-level faults, zero
/// for header-level faults).
#[derive(Clone, Copy, PartialEq, Eq, Structural, Debug)]
pub enum ReadError {
    MalformedContainer { offset: usize },
}

/// The little-endian 16-bit value at `i`.
pub open spec fn u16_le_at(s: Seq<u8>, i: int) -> int {
    s[i] + 256 * s[i + 1]
}

/// The little-endian 32-bit value at `i`.
pub open spec fn u32_le_at(s: Seq<u8>, i: int) -> int {
    s[i] + 256 * s[i + 1] + 65536 * s[i + 2] + 16777216 * s[i + 3]
}

/// One character per byte; meaningful for bytes in the seven-bit range.
pub open spec fn chars_of(bytes: Seq<u8>) -> Seq<char> {
    Seq::new(bytes.len(), |i: int| bytes[i] as char)
}

/// Relies on `String::from_utf8`: a buffer of bytes below 0x80 is valid
/// UTF-8 and decodes to exactly one character per byte.
#[verifier::external_body]
fn string_from_ascii(bytes: Vec<u8>) -> (r: String)
    requires
        forall|i: int| 0 <= i < bytes@.len() ==> bytes@[i] < 0x80,
    ensures
        r@ == chars_of(bytes@),
{
    match String::from_utf8(bytes) {
        Ok(s) => s,
        Err(_) => String::new(),
    }
}

fn u16_at(b: &Vec<u8>, off: usize) -> (r: u16)
    requires
        off + 2 <= b@.len(),
    ensures
        r as int == u16_le_at(b@, off as int),
{
    let _known_len: usize = b.len();
    b[off] as u16 + 256 * (b[off + 1] as u16)
}

fn u32_at(b: &Vec<u8>, off: usize) -> (r: u32)
    requires
        off + 4 <= b@.len(),
    ensures
        r as int == u32_le_at(b@, off as int),
{
    let _known_len: usize = b.len();
    b[off] as u32 + 256 * (b[off + 1] as u32) + 65536 * (b[off + 2] as u32) + 16777216 * (b[off
        + 3] as u32)
}

/// A copy of the bytes in `[from, to)`.
pub(crate) fn vec_slice(b: &Vec<u8>, from: usize, to: usize) -> (out: Vec<u8>)
    requires
        from <= to <= b@.len(),
    ensures
        out@ == b@.subrange(from as int, to as int),
{
    let mut out: Vec<u8> = Vec::new();
    let mut i: usize = from;
    while i < to
        invariant
            from <= i <= to <= b@.len(),
            out@ == b@.subrange(from as int, i as int),
        decreases to - i,
    {
        out.push(b[i]);
        proof {
            assert(out@ =~= b@.subrange(from as int, i + 1 as int));
        }
        i = i + 1;
    }
    out
}

/// The name starting at `off`: the characters before the next zero byte,
/// and the offset just past that terminator. `None` when no terminator
/// follows or a byte lies outside the seven-bit range.
pub open spec fn spec_name_at(b: Seq<u8>, off: int) -> Option<(Seq<char>, int)>
    decreases b.len() - off,
{
    if off < 0 || off >= b.len() {
        None
    } else if b[off] == 0 {
        Some((Seq::empty(), off + 1))
    } else if b[off] >= 0x80 {
        None
    } else {
        match spec_name_at(b, off + 1) {
            None => None,
            Some((rest, nx)) => Some((seq![b[off] as char] + rest, nx)),
        }
    }
}

fn scan_name(b: &Vec<u8>, off: usize) -> (r: Option<(Vec<u8>, usize)>)
    ensures
        r is Some <==> spec_name_at(b@, off as int) is Some,
        r matches Some((bytes, nx)) ==> {
            &&& spec_name_at(b@, off as int) == Some((chars_of(bytes@), nx as int))
            &&& forall|i: int| 0 <= i < bytes@.len() ==> bytes@[i] < 0x80
            &&& off < nx <= b@.len()
        },
    decreases b@.len() - off,
{
    if off >= b.len() {
        return None;
    }
    let c: u8 = b[off];
    if c == 0 {
        let empty: Vec<u8> = Vec::new();
        proof {
            assert(chars_of(empty@) =~= Seq::<char>::empty());
        }
        return Some((empty, off + 1));
    }
    if c >= 0x80 {
        return None;
    }
    match scan_name(b, off + 1) {
        None => None,
        Some((mut bytes, nx)) => {
            bytes.insert(0, c);
            proof {
                let tail = bytes@.subrange(1, bytes@.len() as int);
                assert(chars_of(bytes@) =~= seq![c as char] + chars_of(tail));
            }
            Some((bytes, nx))
        },
    }
}

/// The `n` (id, name) pairs starting at `off`, which must use the body
/// exactly to its end.
pub open spec fn spec_entries_at(b: Seq<u8>, off: int, n: int) -> Option<Seq<(u16, Seq<char>)>>
    decreases n,
{
    if n <= 0 {
        if off == b.len() {
            Some(Seq::empty())
        } else {
            None
        }
    } else if off + 2 > b.len() {
        None
    } else {
        match spec_name_at(b, off + 2) {
            None => None,
            Some((name, nx)) => match spec_entries_at(b, nx, n - 1) {
                None => None,
                Some(rest) => Some(seq![(u16_le_at(b, off) as u16, name)] + rest),
            },
        }
    }
}

fn parse_entries(b: &Vec<u8>, off: usize, n: usize) -> (r: Option<Vec<(u16, String)>>)
    ensures
        r is Some <==> spec_entries_at(b@, off as int, n as int) is Some,
        r matches Some(entries) ==> spec_entries_at(b@, off as int, n as int) == Some(
            entries.deep_view(),
        ),
    decreases n,
{
    if n == 0 {
        if off == b.len() {
            let empty: Vec<(u16, String)> = Vec::new();
            proof {
                assert(empty.deep_view() =~= Seq::<(u16, Seq<char>)>::empty());
            }
            return Some(empty);
        }
        return None;
    }
    if b.len() < 2 || off > b.len() - 2 {
        return None;
    }
    let id: u16 = u16_at(b, off);
    match scan_name(b, off + 2) {
        None => None,
        Some((bytes, nx)) => {
            let ghost name_chars = chars_of(bytes@);
            let name: String = string_from_ascii(bytes);
            match parse_entries(b, nx, n - 1) {
                None => None,
                Some(mut entries) => {
                    let ghost pre = entries.deep_view();
                    entries.insert(0, (id, name));
                    proof {
                        assert(entries.deep_view() =~= seq![(id, name_chars)] + pre);
                    }
                    Some(entries)
                },
            }
        },
    }
}

/// The structure of one tag body under the given tag code: symbol-class
/// declarations, binary-data assets and lossless bitmaps are decoded, all
/// other codes are kept opaque, and a body too short for its code (or a
/// declaration that does not fill its body) is malformed.
pub open spec fn spec_tag_body(code: int, b: Seq<u8>) -> Option<TagView> {
    if code == 76 {
        if b.len() < 2 {
            None
        } else {
            match spec_entries_at(b, 2, u16_le_at(b, 0)) {
                None => None,
                Some(entries) => Some(TagView::SymbolClassDeclaration { entries }),
            }
        }
    } else if code == 87 {
        if b.len() < 6 {
            None
        } else {
            Some(
                TagView::BinaryDataAsset {
                    asset_id: u16_le_at(b, 0) as u16,
                    payload: b.subrange(6, b.len() as int),
                },
            )
        }
    } else if code == 36 {
        if b.len() < 7 {
            None
        } else {
            Some(
                TagView::LosslessBitmapAsset {
                    asset_id: u16_le_at(b, 0) as u16,
                    pixel_format: if b[2] == 5 {
                        PixelFormat::Rgb32
                    } else {
                        PixelFormat::Other(b[2])
                    },
                    width: u16_le_at(b, 3) as u32,
                    height: u16_le_at(b, 5) as u32,
                    packed_data: b.subrange(7, b.len() as int),
                },
            )
        }
    } else {
        Some(TagView::Other)
    }
}

fn parse_tag_body(code: u16, b: Vec<u8>) -> (r: Option<TagRecord>)
    ensures
        r is Some <==> spec_tag_body(code as int, b@) is Some,
        r matches Some(t) ==> spec_tag_body(code as int, b@) == Some(t.deep_view()),
{
    if code == 76 {
        if b.len() < 2 {
            return None;
        }
        let n: u16 = u16_at(&b, 0);
        match parse_entries(&b, 2, n as usize) {
            None => None,
            Some(entries) => Some(TagRecord::SymbolClassDeclaration { entries }),
        }
    } else if code == 87 {
        if b.len() < 6 {
            return None;
        }
        let asset_id: u16 = u16_at(&b, 0);
        let payload: Vec<u8> = vec_slice(&b, 6, b.len());
        Some(TagRecord::BinaryDataAsset { asset_id, payload })
    } else if code == 36 {
        if b.len() < 7 {
            return None;
        }
        let asset_id: u16 = u16_at(&b, 0);
        let fmt: u8 = b[2];
        let pixel_format: PixelFormat = if fmt == 5 {
            PixelFormat::Rgb32
        } else {
            PixelFormat::Other(fmt)
        };
        let width: u32 = u16_at(&b, 3) as u32;
        let height: u32 = u16_at(&b, 5) as u32;
        let packed_data: Vec<u8> = vec_slice(&b, 7, b.len());
        Some(
            TagRecord::LosslessBitmapAsset { asset_id, width, height, pixel_format, packed_data },
        )
    } else {
        Some(TagRecord::Other)
    }
}

/// The tag records from `off` to the end of the movie body: each record is
/// a 16-bit code-and-length word, an optional 32-bit extended length, and
/// that many body bytes. `Err` carries the offset of the first record that
/// does not fit or does not decode.
pub open spec fn spec_tags_from(s: Seq<u8>, off: int) -> Result<Seq<TagView>, int>
    decreases s.len() - off,
{
    if off == s.len() {
        Ok(Seq::empty())
    } else if off < 0 || off + 2 > s.len() {
        Err(off)
    } else {
        let word = u16_le_at(s, off);
        let code = word / 64;
        let short_len = word % 64;
        let body_start = if short_len == 63 {
            off + 6
        } else {
            off + 2
        };
        let body_len = if short_len == 63 {
            if off + 6 <= s.len() {
                u32_le_at(s, off + 2)
            } else {
                0
            }
        } else {
            short_len
        };
        if short_len == 63 && off + 6 > s.len() {
            Err(off)
        } else if body_start + body_len > s.len() {
            Err(off)
        } else {
            match spec_tag_body(code, s.subrange(body_start, body_start + body_len)) {
                None => Err(off),
                Some(t) => match spec_tags_from(s, body_start + body_len) {
                    Err(e) => Err(e),
                    Ok(rest) => Ok(seq![t] + rest),
                },
            }
        }
    }
}

fn parse_tags_from(b: &Vec<u8>, off: usize) -> (r: Result<Vec<TagRecord>, usize>)
    requires
        off <= b@.len(),
    ensures
        r is Ok <==> spec_tags_from(b@, off as int) is Ok,
        r matches Ok(tags) ==> spec_tags_from(b@, off as int) == Ok::<_, int>(tags.deep_view()),
        r matches Err(e) ==> spec_tags_from(b@, off as int) == Err::<Seq<TagView>, _>(e as int),
    decreases b@.len() - off,
{
    let rem: usize = b.len() - off;
    if rem == 0 {
        let empty: Vec<TagRecord> = Vec::new();
        proof {
            assert(empty.deep_view() =~= Seq::<TagView>::empty());
        }
        return Ok(empty);
    }
    if rem < 2 {
        return Err(off);
    }
    let word: u16 = u16_at(b, off);
    let code: u16 = word / 64;
    let short_len: u16 = word % 64;
    let body_start: usize;
    let body_len: usize;
    if short_len == 63 {
        if rem < 6 {
            return Err(off);
        }
        body_start = off + 6;
        body_len = u32_at(b, off + 2) as usize;
    } else {
        body_start = off + 2;
        body_len = short_len as usize;
    }
    if body_len > b.len() - body_start {
        return Err(off);
    }
    let body: Vec<u8> = vec_slice(b, body_start, body_start + body_len);
    match parse_tag_body(code, body) {
        None => Err(off),
        Some(t) => match parse_tags_from(b, body_start + body_len) {
            Err(e) => Err(e),
            Ok(mut tags) => {
                let ghost tv = t.deep_view();
                let ghost pre = tags.deep_view();
                tags.insert(0, t);
                proof {
                    assert(tags.deep_view() =~= seq![tv] + pre);
                }
                Ok(tags)
            },
        },
    }
}

/// The movie body behind the container header: the bytes after the first
/// eight, decompressed when the signature says so, provided the declared
/// length agrees with what is actually there.
pub open spec fn spec_movie_body(s: Seq<u8>) -> Option<Seq<u8>> {
    if s.len() < 8 {
        None
    } else if s[1] == 0x57 && s[2] == 0x53 && s[0] == 0x46 {
        if u32_le_at(s, 4) == s.len() {
            Some(s.subrange(8, s.len() as int))
        } else {
            None
        }
    } else if s[1] == 0x57 && s[2] == 0x53 && s[0] == 0x43 {
        match inflate_of(s.subrange(8, s.len() as int)) {
            None => None,
            Some(body) => if u32_le_at(s, 4) == 8 + body.len() {
                Some(body)
            } else {
                None
            },
        }
    } else {
        None
    }
}

/// Where the tag records start inside a movie body: past the bit-packed
/// rectangle whose five leading bits give its field width, and past the
/// two-byte frame rate and two-byte frame count.
pub open spec fn spec_tags_start(body: Seq<u8>) -> int {
    (5 + 4 * (body[0] / 8) + 7) / 8 + 4
}

/// The ordered tag records of a whole container, or the byte offset near
/// which it is inconsistent: zero for a header, length or rectangle fault,
/// and an offset within the movie body for a fault in a tag record.
pub open spec fn spec_read_tag_stream(s: Seq<u8>) -> Result<Seq<TagView>, int> {
    match spec_movie_body(s) {
        None => Err(0),
        Some(body) => {
            if body.len() < 1 || body.len() < spec_tags_start(body) {
                Err(0)
            } else {
                spec_tags_from(body, spec_tags_start(body))
            }
        },
    }
}

/// Parses a container's raw bytes into its ordered sequence of tag
/// records. Fails with `MalformedContainer`, carrying a byte-offset hint,
/// when the header, the declared length, or any tag length prefix is
/// inconsistent with the bytes that are actually present.
pub fn read_tag_stream(bytes: &Vec<u8>) -> (r: Result<Vec<TagRecord>, ReadError>)
    ensures
        r is Ok <==> spec_read_tag_stream(bytes@) is Ok,
        r matches Ok(tags) ==> spec_read_tag_stream(bytes@) == Ok::<_, int>(tags.deep_view()),
        r matches Err(e) ==> {
            &&& e matches ReadError::MalformedContainer { offset }
            &&& spec_read_tag_stream(bytes@) == Err::<Seq<TagView>, int>(offset as int)
        },
{
    if bytes.len() < 8 {
        return Err(ReadError::MalformedContainer { offset: 0 });
    }
    let declared: u32 = u32_at(bytes, 4);
    let body: Vec<u8>;
    if bytes[1] == 0x57 && bytes[2] == 0x53 && bytes[0] == 0x46 {
        if !(declared as u128 == bytes.len() as u128) {
            return Err(ReadError::MalformedContainer { offset: 0 });
        }
        body = vec_slice(bytes, 8, bytes.len());
    } else if bytes[1] == 0x57 && bytes[2] == 0x53 && bytes[0] == 0x43 {
        let tail: Vec<u8> = vec_slice(bytes, 8, bytes.len());
        match crate::codec::zlib_inflate(&tail) {
            None => {
                return Err(ReadError::MalformedContainer { offset: 0 });
            },
            Some(inflated) => {
                if !(declared as u128 == 8 + inflated.len() as u128) {
                    return Err(ReadError::MalformedContainer { offset: 0 });
                }
                body = inflated;
            },
        }
    } else {
        return Err(ReadError::MalformedContainer { offset: 0 });
    }
    if body.len() < 1 {
        return Err(ReadError::MalformedContainer { offset: 0 });
    }
    let nbits: usize = (body[0] / 8) as usize;
    let start: usize = (5 + 4 * nbits + 7) / 8 + 4;
    if body.len() < start {
        return Err(ReadError::MalformedContainer { offset: 0 });
    }
    match parse_tags_from(&body, start) {
        Ok(tags) => Ok(tags),
        Err(e) => Err(ReadError::MalformedContainer { offset: e }),
    }
}

} // verus!
