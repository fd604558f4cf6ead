//! The header that precedes the image data in a stored file.
//!
//! A header takes `HEADER_SIZE` bytes. The width and the height come first,
//! eight bytes each, then the bits per sample in one byte followed by three
//! zero bytes, the code of the kind and the code of the colour model in four
//! bytes each, and last the four bytes of the magic word. Numbers are
//! little-endian.
use crate::bytes::{
    le_bytes, le_value, lemma_le_bytes_len, lemma_le_bytes_of_value, lemma_le_limit_values,
    lemma_le_value_bound, lemma_le_value_of_bytes, read_le, to_le,
};
use crate::meta::{ImageColor, ImageKind, ImageMeta};
use vstd::prelude::*;

verus! {

/// Size of the header in bytes.
pub const HEADER_SIZE: usize = 32;

/// Alignment of the header: that of its widest field.
pub const HEADER_ALIGN: usize = 8;

/// Offset of the width.
pub const OFFSET_WIDTH: usize = 0;

/// Offset of the height.
pub const OFFSET_HEIGHT: usize = 8;

/// Offset of the bits per sample.
pub const OFFSET_BITS: usize = 16;

/// Offset of the code of the kind.
pub const OFFSET_KIND: usize = 20;

/// Offset of the code of the colour model.
pub const OFFSET_COLOR: usize = 24;

/// Offset of the magic word.
pub const OFFSET_MAGIC: usize = 28;

/// The magic word that ends every header: the letters `imgd`.
pub open spec fn spec_magic() -> Seq<u8> {
    seq![0x69u8, 0x6du8, 0x67u8, 0x64u8]
}

/// The header of an image with the given metadata.
pub open spec fn spec_header(meta: ImageMeta) -> Seq<u8> {
    le_bytes(meta.width as nat, 8) + le_bytes(meta.height as nat, 8) + seq![
        meta.bits,
        0u8,
        0u8,
        0u8,
    ] + le_bytes(meta.kind.spec_code() as nat, 4) + le_bytes(meta.color.spec_code() as nat, 4)
        + spec_magic()
}

/// The metadata that a header holds. There is none where the bytes are
/// fewer than a header, the magic word is missing, the padding is not zero,
/// or a code names no kind or no colour model.
pub open spec fn spec_parse_header(bytes: Seq<u8>) -> Option<ImageMeta> {
    if bytes.len() < HEADER_SIZE {
        None
    } else if bytes.subrange(OFFSET_MAGIC as int, HEADER_SIZE as int) != spec_magic() {
        None
    } else if bytes[17] != 0 || bytes[18] != 0 || bytes[19] != 0 {
        None
    } else {
        let kind = le_value(bytes.subrange(OFFSET_KIND as int, OFFSET_COLOR as int));
        let color = le_value(bytes.subrange(OFFSET_COLOR as int, OFFSET_MAGIC as int));
        match (
            ImageKind::spec_from_code(kind as u32),
            ImageColor::spec_from_code(color as u32),
        ) {
            (Some(kind), Some(color)) => Some(
                ImageMeta {
                    width: le_value(
                        bytes.subrange(OFFSET_WIDTH as int, OFFSET_HEIGHT as int),
                    ) as u64,
                    height: le_value(
                        bytes.subrange(OFFSET_HEIGHT as int, OFFSET_BITS as int),
                    ) as u64,
                    color,
                    kind,
                    bits: bytes[OFFSET_BITS as int],
                },
            ),
            _ => None,
        }
    }
}

/// A header has `HEADER_SIZE` bytes, and each field stands at its offset.
pub proof fn lemma_header_layout(meta: ImageMeta)
    ensures
        spec_header(meta).len() == HEADER_SIZE,
        spec_header(meta).subrange(OFFSET_WIDTH as int, OFFSET_HEIGHT as int) == le_bytes(
            meta.width as nat,
            8,
        ),
        spec_header(meta).subrange(OFFSET_HEIGHT as int, OFFSET_BITS as int) == le_bytes(
            meta.height as nat,
            8,
        ),
        spec_header(meta)[OFFSET_BITS as int] == meta.bits,
        spec_header(meta)[17] == 0 && spec_header(meta)[18] == 0 && spec_header(meta)[19] == 0,
        spec_header(meta).subrange(OFFSET_KIND as int, OFFSET_COLOR as int) == le_bytes(
            meta.kind.spec_code() as nat,
            4,
        ),
        spec_header(meta).subrange(OFFSET_COLOR as int, OFFSET_MAGIC as int) == le_bytes(
            meta.color.spec_code() as nat,
            4,
        ),
        spec_header(meta).subrange(OFFSET_MAGIC as int, HEADER_SIZE as int) == spec_magic(),
{
    lemma_le_bytes_len(meta.width as nat, 8);
    lemma_le_bytes_len(meta.height as nat, 8);
    lemma_le_bytes_len(meta.kind.spec_code() as nat, 4);
    lemma_le_bytes_len(meta.color.spec_code() as nat, 4);
}

/// Parsing the header of any metadata gives that metadata back.
pub proof fn lemma_parse_header_of_header(meta: ImageMeta)
    ensures
        spec_parse_header(spec_header(meta)) == Some(meta),
{
    lemma_header_layout(meta);
    lemma_le_limit_values();
    lemma_le_value_of_bytes(meta.width as nat, 8);
    lemma_le_value_of_bytes(meta.height as nat, 8);
    lemma_le_value_of_bytes(meta.kind.spec_code() as nat, 4);
    lemma_le_value_of_bytes(meta.color.spec_code() as nat, 4);
}

/// Writing out the metadata parsed from some bytes gives the first
/// `HEADER_SIZE` of those bytes again, byte for byte.
pub proof fn lemma_header_of_parsed(bytes: Seq<u8>)
    requires
        spec_parse_header(bytes) is Some,
    ensures
        spec_header(spec_parse_header(bytes)->0) == bytes.subrange(0, HEADER_SIZE as int),
{
    let meta = spec_parse_header(bytes)->0;
    let w = bytes.subrange(OFFSET_WIDTH as int, OFFSET_HEIGHT as int);
    let h = bytes.subrange(OFFSET_HEIGHT as int, OFFSET_BITS as int);
    let k = bytes.subrange(OFFSET_KIND as int, OFFSET_COLOR as int);
    let c = bytes.subrange(OFFSET_COLOR as int, OFFSET_MAGIC as int);
    lemma_le_limit_values();
    lemma_le_value_bound(w);
    lemma_le_value_bound(h);
    lemma_le_value_bound(k);
    lemma_le_value_bound(c);
    lemma_le_bytes_of_value(w);
    lemma_le_bytes_of_value(h);
    lemma_le_bytes_of_value(k);
    lemma_le_bytes_of_value(c);
    lemma_header_layout(meta);
    let kind = le_value(k) as u32;
    let color = le_value(c) as u32;
    assert(meta.kind.spec_code() == kind);
    assert(meta.color.spec_code() == color);
    let out = spec_header(meta);
    let head = bytes.subrange(0, HEADER_SIZE as int);
    assert forall|i: int| 0 <= i < HEADER_SIZE implies out[i] == head[i] by {
        if i < 8 {
            assert(out[i] == out.subrange(0, 8)[i]);
            assert(w[i] == bytes[i]);
        } else if i < 16 {
            assert(out[i] == out.subrange(8, 16)[i - 8]);
            assert(h[i - 8] == bytes[i]);
        } else if i < 20 {
        } else if i < 24 {
            assert(out[i] == out.subrange(20, 24)[i - 20]);
            assert(k[i - 20] == bytes[i]);
        } else if i < 28 {
            assert(out[i] == out.subrange(24, 28)[i - 24]);
            assert(c[i - 24] == bytes[i]);
        } else {
            assert(out[i] == out.subrange(28, 32)[i - 28]);
            assert(bytes.subrange(28, 32)[i - 28] == bytes[i]);
        }
    }
    assert(out =~= head);
}

/// Writes the header of an image with the given metadata.
pub fn encode_header(meta: &ImageMeta) -> (out: Vec<u8>)
    ensures
        out@ == spec_header(*meta),
        out@.len() == HEADER_SIZE,
{
    let mut out = to_le(meta.width, 8);
    let mut height = to_le(meta.height, 8);
    out.append(&mut height);
    out.push(meta.bits);
    out.push(0);
    out.push(0);
    out.push(0);
    let mut kind = to_le(meta.kind.code() as u64, 4);
    out.append(&mut kind);
    let mut color = to_le(meta.color.code() as u64, 4);
    out.append(&mut color);
    out.push(0x69);
    out.push(0x6d);
    out.push(0x67);
    out.push(0x64);
    proof {
        lemma_header_layout(*meta);
        assert(out@ =~= spec_header(*meta));
    }
    out
}

/// Reads the metadata from the header at the start of `bytes`, if there is
/// a well-formed header.
pub fn decode_header(bytes: &[u8]) -> (meta: Option<ImageMeta>)
    ensures
        meta == spec_parse_header(bytes@),
{
    if bytes.len() < HEADER_SIZE {
        return None;
    }
    if bytes[28] != 0x69 || bytes[29] != 0x6d || bytes[30] != 0x67 || bytes[31] != 0x64 {
        assert(bytes@.subrange(28, 32)[0] == bytes@[28]);
        assert(bytes@.subrange(28, 32)[1] == bytes@[29]);
        assert(bytes@.subrange(28, 32)[2] == bytes@[30]);
        assert(bytes@.subrange(28, 32)[3] == bytes@[31]);
        return None;
    }
    assert(bytes@.subrange(28, 32) =~= spec_magic());
    if bytes[17] != 0 || bytes[18] != 0 || bytes[19] != 0 {
        return None;
    }
    let width = read_le(bytes, OFFSET_WIDTH, 8);
    let height = read_le(bytes, OFFSET_HEIGHT, 8);
    let kind = read_le(bytes, OFFSET_KIND, 4);
    let color = read_le(bytes, OFFSET_COLOR, 4);
    proof {
        lemma_le_limit_values();
        lemma_le_value_bound(bytes@.subrange(OFFSET_KIND as int, OFFSET_COLOR as int));
        lemma_le_value_bound(bytes@.subrange(OFFSET_COLOR as int, OFFSET_MAGIC as int));
    }
    match (ImageKind::from_code(kind as u32), ImageColor::from_code(color as u32)) {
        (Some(kind), Some(color)) => Some(
            ImageMeta { width, height, color, kind, bits: bytes[OFFSET_BITS] },
        ),
        _ => None,
    }
}

} // verus!
