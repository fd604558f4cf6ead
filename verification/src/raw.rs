//! The description of an image that a compiled filter takes.
use crate::image::Image;
use crate::meta::ImageKind;
use vstd::prelude::*;

verus! {

/// The shape and sample type of a buffer as a filter wants them: the
/// dimensions as 32-bit integers, the kind and the bits of a sample. The
/// bytes themselves are had from [`Image::buffer`].
#[derive(Clone, Copy, Debug, PartialEq, Eq, Structural)]
pub struct RawBuffer {
    pub width: i32,
    pub height: i32,
    pub channels: i32,
    pub kind: ImageKind,
    pub bits: u8,
}

/// Describes an image to a filter. There is no description where the width
/// or the height is beyond the range of a 32-bit integer.
pub fn halide_buffer(im: &Image) -> (r: Option<RawBuffer>)
    ensures
        match r {
            Some(raw) => {
                &&& raw.width == im@.meta.width
                &&& raw.height == im@.meta.height
                &&& raw.channels == im@.meta.spec_channels()
                &&& raw.kind == im@.meta.kind
                &&& raw.bits == im@.meta.bits
            },
            None => im@.meta.width > i32::MAX || im@.meta.height > i32::MAX,
        },
{
    let meta = im.meta();
    if meta.width > i32::MAX as u64 || meta.height > i32::MAX as u64 {
        return None;
    }
    Some(
        RawBuffer {
            width: meta.width as i32,
            height: meta.height as i32,
            channels: meta.channels() as i32,
            kind: meta.kind,
            bits: meta.bits,
        },
    )
}

} // verus!
