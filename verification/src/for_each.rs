//! Walks over the pixels of an image that hand the samples of each pixel,
//! read as a type of the caller's choice, to a callback.
use crate::engine::spec_before;
use crate::error::Error;
use crate::image::{lemma_with_pixel_bytes, Image, ImageView};
use crate::meta::ImageMeta;
use crate::sample::{spec_sample_bytes, spec_samples, Sample};
use vstd::prelude::*;

verus! {

/// The bytes of a pixel after the callback returned samples for it: the
/// bytes of these samples where there is one for each channel, and else the
/// bytes that the pixel had.
pub open spec fn spec_replaced<T: Sample>(meta: ImageMeta, before: Seq<u8>, out: Seq<T>) -> Seq<
    u8,
> {
    if out.len() == meta.spec_channels() {
        spec_sample_bytes::<T>(out)
    } else {
        before
    }
}

/// The pixel at column `x` of row `y` was handed to the callback once: the
/// callback got the samples that the pixel had in `before`, and `after`
/// holds what became of the pixel with the samples that it returned.
pub open spec fn spec_mapped<T: Sample, F: FnMut((usize, usize), Vec<T>) -> Vec<T>>(
    f: F,
    meta: ImageMeta,
    before: Seq<u8>,
    after: Seq<u8>,
    x: usize,
    y: usize,
) -> bool {
    exists|samples: Vec<T>, out: Vec<T>|
        {
            &&& samples@ == spec_samples::<T>(before, meta.spec_channels())
            &&& #[trigger] call_ensures(f, ((x, y), samples), out)
            &&& after == spec_replaced::<T>(meta, before, out@)
        }
}

/// What holds of an image while it is walked and the walk has come to
/// column `cx` of row `cy`: every pixel before that place was handed to the
/// callback once, and every other pixel is as it was.
pub open spec fn spec_swept<T: Sample, F: FnMut((usize, usize), Vec<T>) -> Vec<T>>(
    f: F,
    before: ImageView,
    after: ImageView,
    cx: nat,
    cy: nat,
) -> bool {
    &&& after.meta == before.meta
    &&& after.ownership == before.ownership
    &&& after.data.len() == before.data.len()
    &&& forall|x: usize, y: usize|
        before.meta.spec_in_bounds(x as nat, y as nat) ==> if spec_before(
            x as nat,
            y as nat,
            cx,
            cy,
        ) {
            spec_mapped::<T, F>(
                f,
                before.meta,
                before.spec_pixel_bytes(x as nat, y as nat),
                #[trigger] after.spec_pixel_bytes(x as nat, y as nat),
                x,
                y,
            )
        } else {
            after.spec_pixel_bytes(x as nat, y as nat) == before.spec_pixel_bytes(
                x as nat,
                y as nat,
            )
        }
}

/// The pixel at column `x` of row `y` was handed to the callback once,
/// together with the samples of the pixel at the same place of a second
/// image.
pub open spec fn spec_mapped2<T: Sample, F: FnMut((usize, usize), Vec<T>, Vec<T>) -> Vec<T>>(
    f: F,
    meta: ImageMeta,
    before: Seq<u8>,
    other: Seq<u8>,
    after: Seq<u8>,
    x: usize,
    y: usize,
) -> bool {
    exists|samples: Vec<T>, others: Vec<T>, out: Vec<T>|
        {
            &&& samples@ == spec_samples::<T>(before, meta.spec_channels())
            &&& others@ == spec_samples::<T>(other, meta.spec_channels())
            &&& #[trigger] call_ensures(f, ((x, y), samples, others), out)
            &&& after == spec_replaced::<T>(meta, before, out@)
        }
}

/// What holds of an image while it is walked beside a second image and the
/// walk has come to column `cx` of row `cy`.
pub open spec fn spec_swept2<T: Sample, F: FnMut((usize, usize), Vec<T>, Vec<T>) -> Vec<T>>(
    f: F,
    before: ImageView,
    other: ImageView,
    after: ImageView,
    cx: nat,
    cy: nat,
) -> bool {
    &&& after.meta == before.meta
    &&& after.ownership == before.ownership
    &&& after.data.len() == before.data.len()
    &&& forall|x: usize, y: usize|
        before.meta.spec_in_bounds(x as nat, y as nat) ==> if spec_before(
            x as nat,
            y as nat,
            cx,
            cy,
        ) {
            spec_mapped2::<T, F>(
                f,
                before.meta,
                before.spec_pixel_bytes(x as nat, y as nat),
                other.spec_pixel_bytes(x as nat, y as nat),
                #[trigger] after.spec_pixel_bytes(x as nat, y as nat),
                x,
                y,
            )
        } else {
            after.spec_pixel_bytes(x as nat, y as nat) == before.spec_pixel_bytes(
                x as nat,
                y as nat,
            )
        }
}

impl Image {
    /// Iterate over each pixel and apply `f`: for every pixel, row by row,
    /// `f` gets the column and the row of the pixel and its samples, and
    /// the samples that it returns become those of the pixel. Where `f`
    /// returns more or fewer samples than the pixel has channels, the pixel
    /// stays as it is.
    ///
    /// Fails with `IncorrectImageType`, and calls nothing, unless a sample
    /// of the image has the size of a `T`.
    pub fn for_each<T: Sample, F: FnMut((usize, usize), Vec<T>) -> Vec<T>>(
        &mut self,
        f: F,
    ) -> (r: Result<(), Error>)
        requires
            old(self).wf(),
            forall|x: usize, y: usize, samples: Vec<T>| call_requires(f, ((x, y), samples)),
        ensures
            final(self).wf(),
            match r {
                Ok(()) => {
                    &&& T::spec_size() == old(self)@.meta.spec_elem_size()
                    &&& spec_swept::<T, F>(
                        f,
                        old(self)@,
                        final(self)@,
                        0,
                        old(self)@.meta.height as nat,
                    )
                },
                Err(e) => {
                    &&& e == Error::IncorrectImageType
                    &&& T::spec_size() != old(self)@.meta.spec_elem_size()
                    &&& final(self)@ == old(self)@
                },
            },
    {
        if !self.is_type::<T>() {
            return Err(Error::IncorrectImageType);
        }
        let width = self.meta().width();
        let height = self.meta().height();
        let channels = self.meta().channels();
        let mut call = f;
        let mut y: usize = 0;
        while y < height
            invariant
                y <= height,
                width == old(self)@.meta.width,
                height == old(self)@.meta.height,
                channels == old(self)@.meta.spec_channels(),
                T::spec_size() == old(self)@.meta.spec_elem_size(),
                old(self).wf(),
                self.wf(),
                call == f,
                forall|x: usize, y: usize, samples: Vec<T>| call_requires(f, ((x, y), samples)),
                spec_swept::<T, F>(f, old(self)@, self@, 0, y as nat),
            decreases height - y,
        {
            let mut x: usize = 0;
            while x < width
                invariant
                    y < height,
                    x <= width,
                    width == old(self)@.meta.width,
                    height == old(self)@.meta.height,
                    channels == old(self)@.meta.spec_channels(),
                    T::spec_size() == old(self)@.meta.spec_elem_size(),
                    old(self).wf(),
                    self.wf(),
                    call == f,
                    forall|x: usize, y: usize, samples: Vec<T>|
                        call_requires(f, ((x, y), samples)),
                    spec_swept::<T, F>(f, old(self)@, self@, x as nat, y as nat),
                decreases width - x,
            {
                let ghost start = old(self)@;
                let ghost now = self@;
                assert(now.spec_pixel_bytes(x as nat, y as nat) == start.spec_pixel_bytes(
                    x as nat,
                    y as nat,
                ));
                let samples = match self.at::<T>(x, y) {
                    Ok(samples) => samples,
                    Err(_) => Vec::new(),
                };
                let ghost given = samples;
                let out = call((x, y), samples);
                if out.len() == channels {
                    let _ = self.set_at::<T>(x, y, out.as_slice());
                }
                proof {
                    let bytes = spec_replaced::<T>(
                        start.meta,
                        start.spec_pixel_bytes(x as nat, y as nat),
                        out@,
                    );
                    let after = self@;
                    if out@.len() == channels {
                        crate::bytes::lemma_words_bytes_len(
                            out@.map_values(|v: T| v.spec_to_word()),
                            T::spec_size(),
                        );
                        lemma_with_pixel_bytes(now, x as nat, y as nat, bytes);
                    }
                    assert(after.spec_pixel_bytes(x as nat, y as nat) == bytes);
                    assert(spec_mapped::<T, F>(
                        f,
                        start.meta,
                        start.spec_pixel_bytes(x as nat, y as nat),
                        after.spec_pixel_bytes(x as nat, y as nat),
                        x,
                        y,
                    )) by {
                        assert(call_ensures(f, ((x, y), given), out));
                    }
                    assert forall|px: usize, py: usize|
                        start.meta.spec_in_bounds(px as nat, py as nat) implies if spec_before(
                        px as nat,
                        py as nat,
                        (x + 1) as nat,
                        y as nat,
                    ) {
                        spec_mapped::<T, F>(
                            f,
                            start.meta,
                            start.spec_pixel_bytes(px as nat, py as nat),
                            #[trigger] after.spec_pixel_bytes(px as nat, py as nat),
                            px,
                            py,
                        )
                    } else {
                        after.spec_pixel_bytes(px as nat, py as nat) == start.spec_pixel_bytes(
                            px as nat,
                            py as nat,
                        )
                    } by {
                        if px == x && py == y {
                        } else {
                            assert(after.spec_pixel_bytes(px as nat, py as nat)
                                == now.spec_pixel_bytes(px as nat, py as nat));
                        }
                    }
                }
                x = x + 1;
            }
            y = y + 1;
        }
        Ok(())
    }

    /// Iterate over each pixel in two images of the same size and apply
    /// `f`: for every pixel, row by row, `f` gets the column and the row of
    /// the pixel, its samples, and the samples of the pixel at the same
    /// place of `other`; the samples that it returns become those of the
    /// pixel. Where `f` returns more or fewer samples than the pixel has
    /// channels, the pixel stays as it is.
    ///
    /// Fails with `IncorrectImageType` unless a sample of each image has
    /// the size of a `T`, and else with `OutOfBounds` unless the two images
    /// have the same width, height and number of channels. Nothing is
    /// called then.
    pub fn for_each2<T: Sample, F: FnMut((usize, usize), Vec<T>, Vec<T>) -> Vec<T>>(
        &mut self,
        other: &Image,
        f: F,
    ) -> (r: Result<(), Error>)
        requires
            old(self).wf(),
            other.wf(),
            forall|x: usize, y: usize, samples: Vec<T>, others: Vec<T>|
                call_requires(f, ((x, y), samples, others)),
        ensures
            final(self).wf(),
            ({
                let meta = old(self)@.meta;
                let typed = T::spec_size() == meta.spec_elem_size() && T::spec_size()
                    == other@.meta.spec_elem_size();
                let alike = meta.width == other@.meta.width && meta.height == other@.meta.height
                    && meta.spec_channels() == other@.meta.spec_channels();
                match r {
                    Ok(()) => {
                        &&& typed
                        &&& alike
                        &&& spec_swept2::<T, F>(
                            f,
                            old(self)@,
                            other@,
                            final(self)@,
                            0,
                            meta.height as nat,
                        )
                    },
                    Err(e) => {
                        &&& final(self)@ == old(self)@
                        &&& !typed ==> e == Error::IncorrectImageType
                        &&& typed ==> e == Error::OutOfBounds && !alike
                    },
                }
            }),
    {
        if !self.is_type::<T>() || !other.is_type::<T>() {
            return Err(Error::IncorrectImageType);
        }
        let width = self.meta().width();
        let height = self.meta().height();
        let channels = self.meta().channels();
        if self.meta().width != other.meta().width || self.meta().height != other.meta().height
            || channels != other.meta().channels() {
            return Err(Error::OutOfBounds);
        }
        let mut call = f;
        let mut y: usize = 0;
        while y < height
            invariant
                y <= height,
                width == old(self)@.meta.width,
                height == old(self)@.meta.height,
                channels == old(self)@.meta.spec_channels(),
                T::spec_size() == old(self)@.meta.spec_elem_size(),
                T::spec_size() == other@.meta.spec_elem_size(),
                other@.meta.width == width,
                other@.meta.height == height,
                other@.meta.spec_channels() == channels,
                old(self).wf(),
                other.wf(),
                self.wf(),
                call == f,
                forall|x: usize, y: usize, samples: Vec<T>, others: Vec<T>|
                    call_requires(f, ((x, y), samples, others)),
                spec_swept2::<T, F>(f, old(self)@, other@, self@, 0, y as nat),
            decreases height - y,
        {
            let mut x: usize = 0;
            while x < width
                invariant
                    y < height,
                    x <= width,
                    width == old(self)@.meta.width,
                    height == old(self)@.meta.height,
                    channels == old(self)@.meta.spec_channels(),
                    T::spec_size() == old(self)@.meta.spec_elem_size(),
                    T::spec_size() == other@.meta.spec_elem_size(),
                    other@.meta.width == width,
                    other@.meta.height == height,
                    other@.meta.spec_channels() == channels,
                    old(self).wf(),
                    other.wf(),
                    self.wf(),
                    call == f,
                    forall|x: usize, y: usize, samples: Vec<T>, others: Vec<T>|
                        call_requires(f, ((x, y), samples, others)),
                    spec_swept2::<T, F>(f, old(self)@, other@, self@, x as nat, y as nat),
                decreases width - x,
            {
                let ghost start = old(self)@;
                let ghost now = self@;
                assert(now.spec_pixel_bytes(x as nat, y as nat) == start.spec_pixel_bytes(
                    x as nat,
                    y as nat,
                ));
                let samples = match self.at::<T>(x, y) {
                    Ok(samples) => samples,
                    Err(_) => Vec::new(),
                };
                let others = match other.at::<T>(x, y) {
                    Ok(others) => others,
                    Err(_) => Vec::new(),
                };
                let ghost given = samples;
                let ghost beside = others;
                let out = call((x, y), samples, others);
                if out.len() == channels {
                    let _ = self.set_at::<T>(x, y, out.as_slice());
                }
                proof {
                    let bytes = spec_replaced::<T>(
                        start.meta,
                        start.spec_pixel_bytes(x as nat, y as nat),
                        out@,
                    );
                    let after = self@;
                    if out@.len() == channels {
                        crate::bytes::lemma_words_bytes_len(
                            out@.map_values(|v: T| v.spec_to_word()),
                            T::spec_size(),
                        );
                        lemma_with_pixel_bytes(now, x as nat, y as nat, bytes);
                    }
                    assert(after.spec_pixel_bytes(x as nat, y as nat) == bytes);
                    assert(spec_mapped2::<T, F>(
                        f,
                        start.meta,
                        start.spec_pixel_bytes(x as nat, y as nat),
                        other@.spec_pixel_bytes(x as nat, y as nat),
                        after.spec_pixel_bytes(x as nat, y as nat),
                        x,
                        y,
                    )) by {
                        assert(call_ensures(f, ((x, y), given, beside), out));
                    }
                    assert forall|px: usize, py: usize|
                        start.meta.spec_in_bounds(px as nat, py as nat) implies if spec_before(
                        px as nat,
                        py as nat,
                        (x + 1) as nat,
                        y as nat,
                    ) {
                        spec_mapped2::<T, F>(
                            f,
                            start.meta,
                            start.spec_pixel_bytes(px as nat, py as nat),
                            other@.spec_pixel_bytes(px as nat, py as nat),
                            #[trigger] after.spec_pixel_bytes(px as nat, py as nat),
                            px,
                            py,
                        )
                    } else {
                        after.spec_pixel_bytes(px as nat, py as nat) == start.spec_pixel_bytes(
                            px as nat,
                            py as nat,
                        )
                    } by {
                        if px == x && py == y {
                        } else {
                            assert(after.spec_pixel_bytes(px as nat, py as nat)
                                == now.spec_pixel_bytes(px as nat, py as nat));
                        }
                    }
                }
                x = x + 1;
            }
            y = y + 1;
        }
        Ok(())
    }
}

} // verus!
