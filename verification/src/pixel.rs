//! The value of one pixel, as the pixel engine hands it to its callback.
use vstd::prelude::*;

verus! {

/// 4-channel pixel.
///
/// Each channel is one 32-bit word: the bits of the sample as the image
/// stores it, widened with zeros. For a 32-bit float image a word is thus
/// the bit pattern of the float. A pixel of an image with fewer than four
/// channels leaves the remaining words zero.
#[derive(Clone, Copy, Debug, PartialEq, Eq)]
pub struct Pixel {
    pub data: [u32; 4],
}

impl View for Pixel {
    type V = Seq<u32>;

    open spec fn view(&self) -> Seq<u32> {
        self.data@
    }
}

impl Default for Pixel {
    fn default() -> (px: Pixel)
        ensures
            px@ == seq![0u32, 0u32, 0u32, 0u32],
    {
        Pixel::empty()
    }
}

impl Pixel {
    /// Empty pixel
    pub fn empty() -> (px: Pixel)
        ensures
            px@ == seq![0u32, 0u32, 0u32, 0u32],
    {
        let px = Pixel { data: [0, 0, 0, 0] };
        assert(px@ =~= seq![0u32, 0u32, 0u32, 0u32]);
        px
    }

    /// 3 channel pixel
    pub fn new3(r: u32, g: u32, b: u32) -> (px: Pixel)
        ensures
            px@ == seq![r, g, b, 0u32],
    {
        let px = Pixel { data: [r, g, b, 0] };
        assert(px@ =~= seq![r, g, b, 0u32]);
        px
    }

    /// 4 channel pixel
    pub fn new(r: u32, g: u32, b: u32, a: u32) -> (px: Pixel)
        ensures
            px@ == seq![r, g, b, a],
    {
        let px = Pixel { data: [r, g, b, a] };
        assert(px@ =~= seq![r, g, b, a]);
        px
    }

    /// 1 channel pixel
    pub fn gray(x: u32) -> (px: Pixel)
        ensures
            px@ == seq![x, 0u32, 0u32, 0u32],
    {
        let px = Pixel { data: [x, 0, 0, 0] };
        assert(px@ =~= seq![x, 0u32, 0u32, 0u32]);
        px
    }

    /// Get pixel data
    pub fn data(&self) -> (d: [u32; 4])
        ensures
            d@ == self@,
    {
        self.data
    }

    /// Get a mutable reference to the pixel data
    pub fn data_mut(&mut self) -> (d: &mut [u32; 4])
        ensures
            d@ == old(self)@,
            final(self)@ == final(d)@,
    {
        &mut self.data
    }
}

} // verus!
