//! The pixel engine: it hands every pixel of an image to a callback, band
//! of rows by band of rows, and stores what the callback returns.
//!
//! The rows of an image are cut into as many bands as there are workers.
//! Within this crate the bands are walked one after the other, so the pixels
//! are visited in row-major order. A caller that has threads gives each
//! band to one of them with [`Image::each_pixel_rows`].
use crate::error::{Error, ImagedStatus};
use crate::image::{
    lemma_with_pixel, spec_kept, spec_load_pixel, spec_store_pixel, Image, ImageView,
};
use crate::meta::ImageMeta;
use crate::pixel::Pixel;
use vstd::prelude::*;

verus! {

/// The number of processors that this machine offers, as `num_cpus::get`
/// reports it. Nothing is claimed of the number.
#[verifier::external_body]
fn available_cpus() -> (n: usize) {
    num_cpus::get()
}

/// The number of workers that share `height` rows when `nthreads` are asked
/// for: at least one, and no more than there are rows.
pub open spec fn spec_workers(height: nat, nthreads: nat) -> nat {
    if nthreads == 0 || height == 0 {
        1
    } else if nthreads > height {
        height
    } else {
        nthreads
    }
}

/// The first row of band `i` when `height` rows are shared by `workers`
/// bands. Every band gets the same number of rows, but that the first few
/// get one more where the rows cannot be shared out evenly. Band `i` ends
/// where band `i + 1` starts.
pub open spec fn spec_band_start(height: nat, workers: nat, i: nat) -> nat {
    let base = height / workers;
    let rem = height % workers;
    i * base + if i < rem {
        i
    } else {
        rem
    }
}

/// The bands start at row zero, end at the last row, follow each other
/// without a gap, and differ in size by one row at most.
pub proof fn lemma_bands_cover(height: nat, workers: nat)
    requires
        workers > 0,
    ensures
        spec_band_start(height, workers, 0) == 0,
        spec_band_start(height, workers, workers) == height,
        forall|i: nat|
            i < workers ==> {
                let size = #[trigger] spec_band_start(height, workers, i + 1) - spec_band_start(
                    height,
                    workers,
                    i,
                );
                size == height / workers || size == height / workers + 1
            },
{
    let base = height / workers;
    let rem = height % workers;
    vstd::arithmetic::div_mod::lemma_fundamental_div_mod(height as int, workers as int);
    assert(0 * base == 0) by (nonlinear_arith);
    assert(workers * base == workers * (height / workers));
    assert forall|i: nat| i < workers implies {
        let size = #[trigger] spec_band_start(height, workers, i + 1) - spec_band_start(
            height,
            workers,
            i,
        );
        size == base || size == base + 1
    } by {
        assert((i + 1) * base == i * base + base) by (nonlinear_arith);
    }
}

/// A later band starts no earlier than an earlier band ends.
pub proof fn lemma_bands_ordered(height: nat, workers: nat, i: nat, j: nat)
    requires
        workers > 0,
        i < j,
    ensures
        spec_band_start(height, workers, i + 1) <= spec_band_start(height, workers, j),
    decreases j - i,
{
    let base = height / workers;
    if i + 1 < j {
        lemma_bands_ordered(height, workers, i + 1, j);
        assert((i + 2) * base == (i + 1) * base + base) by (nonlinear_arith);
    }
}

/// Every row lies in exactly one band.
pub proof fn lemma_row_in_one_band(height: nat, workers: nat, row: nat)
    requires
        workers > 0,
        row < height,
    ensures
        exists|i: nat|
            i < workers && #[trigger] spec_band_start(height, workers, i) <= row
                < spec_band_start(height, workers, i + 1),
        forall|i: nat, j: nat|
            #![trigger spec_band_start(height, workers, i), spec_band_start(height, workers, j)]
            spec_band_start(height, workers, i) <= row < spec_band_start(height, workers, i + 1)
                && spec_band_start(height, workers, j) <= row < spec_band_start(
                height,
                workers,
                j + 1,
            ) ==> i == j,
{
    lemma_bands_cover(height, workers);
    let b = lemma_find_band(height, workers, row, 0);
    assert forall|i: nat, j: nat|
        #![trigger spec_band_start(height, workers, i), spec_band_start(height, workers, j)]
        spec_band_start(height, workers, i) <= row < spec_band_start(height, workers, i + 1)
            && spec_band_start(height, workers, j) <= row < spec_band_start(
            height,
            workers,
            j + 1,
        ) implies i == j by {
        if i < j {
            lemma_bands_ordered(height, workers, i, j);
        } else if j < i {
            lemma_bands_ordered(height, workers, j, i);
        }
    }
}

proof fn lemma_find_band(height: nat, workers: nat, row: nat, i: nat) -> (b: nat)
    requires
        workers > 0,
        row < height,
        i < workers,
        spec_band_start(height, workers, i) <= row,
    ensures
        b < workers,
        spec_band_start(height, workers, b) <= row < spec_band_start(height, workers, b + 1),
    decreases workers - i,
{
    lemma_bands_cover(height, workers);
    if row < spec_band_start(height, workers, i + 1) {
        i
    } else {
        lemma_find_band(height, workers, row, i + 1)
    }
}

/// Cuts `height` rows into bands, one for each worker. A band is a pair of
/// its first row and the row after its last.
pub fn partition_rows(height: usize, nthreads: usize) -> (bands: Vec<(usize, usize)>)
    ensures
        bands@.len() == spec_workers(height as nat, nthreads as nat),
        forall|i: int|
            0 <= i < bands@.len() ==> {
                &&& (#[trigger] bands@[i]).0 == spec_band_start(
                    height as nat,
                    bands@.len(),
                    i as nat,
                )
                &&& bands@[i].1 == spec_band_start(height as nat, bands@.len(), (i + 1) as nat)
            },
        forall|i: int|
            0 <= i < bands@.len() ==> (#[trigger] bands@[i]).0 <= bands@[i].1 <= height,
{
    let workers: usize = if nthreads == 0 || height == 0 {
        1
    } else if nthreads > height {
        height
    } else {
        nthreads
    };
    let base = height / workers;
    let rem = height % workers;
    let mut bands: Vec<(usize, usize)> = Vec::new();
    let mut start: usize = 0;
    let mut i: usize = 0;
    proof {
        assert(0 * base == 0) by (nonlinear_arith);
        vstd::arithmetic::div_mod::lemma_fundamental_div_mod(height as int, workers as int);
    }
    while i < workers
        invariant
            i <= workers,
            workers > 0,
            base == height / workers,
            rem == height % workers,
            height == workers * base + rem,
            start == spec_band_start(height as nat, workers as nat, i as nat),
            start <= height,
            bands@.len() == i,
            forall|j: int|
                0 <= j < i ==> {
                    &&& (#[trigger] bands@[j]).0 == spec_band_start(
                        height as nat,
                        workers as nat,
                        j as nat,
                    )
                    &&& bands@[j].1 == spec_band_start(
                        height as nat,
                        workers as nat,
                        (j + 1) as nat,
                    )
                },
            forall|j: int| 0 <= j < i ==> (#[trigger] bands@[j]).0 <= bands@[j].1 <= height,
        decreases workers - i,
    {
        proof {
            assert(base <= workers * base) by (nonlinear_arith)
                requires
                    workers >= 1,
            ;
        }
        let len: usize = if i < rem { base + 1 } else { base };
        proof {
            assert((i + 1) * base == i * base + base) by (nonlinear_arith);
            assert((i + 1) * base <= workers * base) by (nonlinear_arith)
                requires
                    i + 1 <= workers,
            ;
        }
        let end = start + len;
        bands.push((start, end));
        start = end;
        i = i + 1;
    }
    bands
}

/// Whether the pixel at column `x` of row `y` comes before the one at
/// column `ax` of row `ay` when an image is walked row by row.
pub open spec fn spec_before(x: nat, y: nat, ax: nat, ay: nat) -> bool {
    y < ay || (y == ay && x < ax)
}

/// The pixel at column `x` of row `y` was handed to the callback once: the
/// callback got the value that the pixel had in `before`, asked to go on,
/// and `after` holds the bytes of the pixel with the returned value stored.
pub open spec fn spec_visited<F: FnMut(usize, usize, Pixel) -> (Pixel, Result<bool, Error>)>(
    f: F,
    meta: ImageMeta,
    before: Seq<u8>,
    after: Seq<u8>,
    x: usize,
    y: usize,
) -> bool {
    exists|p: Pixel, q: Pixel|
        {
            &&& p@ == spec_load_pixel(meta, before)
            &&& #[trigger] call_ensures(f, (x, y, p), (q, Ok::<bool, Error>(true)))
            &&& after == spec_store_pixel(meta, before, q@)
        }
}

/// The callback got the value of the pixel at column `x` of row `y` and
/// did not ask to go on: it returned `Ok(false)` or an error.
pub open spec fn spec_refused<F: FnMut(usize, usize, Pixel) -> (Pixel, Result<bool, Error>)>(
    f: F,
    meta: ImageMeta,
    before: Seq<u8>,
    x: usize,
    y: usize,
) -> bool {
    exists|p: Pixel, q: Pixel, r: Result<bool, Error>|
        {
            &&& p@ == spec_load_pixel(meta, before)
            &&& #[trigger] call_ensures(f, (x, y, p), (q, r))
            &&& r != Ok::<bool, Error>(true)
        }
}

/// What holds of an image while its rows from `y0` on are walked and the
/// walk has come to column `cx` of row `cy`: every pixel before that place
/// was visited once, and every other pixel is as it was.
pub open spec fn spec_walked<F: FnMut(usize, usize, Pixel) -> (Pixel, Result<bool, Error>)>(
    f: F,
    before: ImageView,
    after: ImageView,
    y0: nat,
    cx: nat,
    cy: nat,
) -> bool {
    &&& after.meta == before.meta
    &&& after.ownership == before.ownership
    &&& after.data.len() == before.data.len()
    &&& forall|x: usize, y: usize|
        before.meta.spec_in_bounds(x as nat, y as nat) ==> if y0 <= y && spec_before(
            x as nat,
            y as nat,
            cx,
            cy,
        ) {
            spec_visited(
                f,
                before.meta,
                before.spec_pixel_bytes(x as nat, y as nat),
                #[trigger] after.spec_pixel_bytes(x as nat, y as nat),
                x,
                y,
            )
        } else {
            after.spec_pixel_bytes(x as nat, y as nat) == before.spec_pixel_bytes(
                x as nat,
                y as nat,
            )
        }
}

/// What a walk over the rows from `y0` up to `y1` leaves behind. Where it
/// came to an end (`stop` is `None`), every pixel of those rows was visited
/// once. Where it stopped at a pixel, the callback refused that pixel, the
/// pixels of those rows before it were visited once, and the pixel itself
/// and all that follow are as they were. Pixels of other rows are as they
/// were in either case.
pub open spec fn spec_rows_walked<F: FnMut(usize, usize, Pixel) -> (Pixel, Result<bool, Error>)>(
    f: F,
    before: ImageView,
    after: ImageView,
    y0: nat,
    y1: nat,
    stop: Option<(usize, usize)>,
) -> bool {
    match stop {
        None => spec_walked(f, before, after, y0, 0, y1),
        Some((ax, ay)) => {
            &&& y0 <= ay < y1
            &&& before.meta.spec_in_bounds(ax as nat, ay as nat)
            &&& spec_walked(f, before, after, y0, ax as nat, ay as nat)
            &&& spec_refused(
                f,
                before.meta,
                before.spec_pixel_bytes(ax as nat, ay as nat),
                ax,
                ay,
            )
        },
    }
}

impl Image {
    /// Walks the rows from `y0` up to `y1`, and says where the callback
    /// refused a pixel, if it did.
    fn walk_rows<F: FnMut(usize, usize, Pixel) -> (Pixel, Result<bool, Error>)>(
        &mut self,
        y0: usize,
        y1: usize,
        f: F,
    ) -> (r: (Option<(usize, usize)>, F))
        requires
            old(self).wf(),
            y0 <= y1 <= old(self)@.meta.height,
            forall|x: usize, y: usize, p: Pixel| call_requires(f, (x, y, p)),
        ensures
            final(self).wf(),
            r.1 == f,
            spec_rows_walked(f, old(self)@, final(self)@, y0 as nat, y1 as nat, r.0),
    {
        let width = self.meta().width();
        let mut call = f;
        let mut y: usize = y0;
        while y < y1
            invariant
                y0 <= y <= y1 <= old(self)@.meta.height,
                width == old(self)@.meta.width,
                old(self).wf(),
                self.wf(),
                call == f,
                forall|x: usize, y: usize, p: Pixel| call_requires(f, (x, y, p)),
                spec_walked(f, old(self)@, self@, y0 as nat, 0, y as nat),
            decreases y1 - y,
        {
            let mut x: usize = 0;
            while x < width
                invariant
                    y0 <= y < y1 <= old(self)@.meta.height,
                    x <= width,
                    width == old(self)@.meta.width,
                    old(self).wf(),
                    self.wf(),
                    call == f,
                    forall|x: usize, y: usize, p: Pixel| call_requires(f, (x, y, p)),
                    spec_walked(f, old(self)@, self@, y0 as nat, x as nat, y as nat),
                decreases width - x,
            {
                let ghost start = old(self)@;
                let ghost now = self@;
                let mut p = Pixel::empty();
                self.get_pixel(x, y, &mut p);
                assert(now.spec_pixel_bytes(x as nat, y as nat) == start.spec_pixel_bytes(
                    x as nat,
                    y as nat,
                ));
                let (q, go) = call(x, y, p);
                let go_on = match go {
                    Ok(b) => b,
                    Err(_) => false,
                };
                if !go_on {
                    assert(spec_refused(
                        f,
                        start.meta,
                        start.spec_pixel_bytes(x as nat, y as nat),
                        x,
                        y,
                    )) by {
                        assert(call_ensures(f, (x, y, p), (q, go)));
                    }
                    return (Some((x, y)), call);
                }
                self.set_pixel(x, y, &q);
                proof {
                    lemma_with_pixel(now, x as nat, y as nat, q@);
                    let after = self@;
                    assert(spec_visited(
                        f,
                        start.meta,
                        start.spec_pixel_bytes(x as nat, y as nat),
                        after.spec_pixel_bytes(x as nat, y as nat),
                        x,
                        y,
                    )) by {
                        assert(call_ensures(f, (x, y, p), (q, Ok::<bool, Error>(true))));
                    }
                    assert forall|px: usize, py: usize|
                        start.meta.spec_in_bounds(px as nat, py as nat) implies if y0 <= py
                        && spec_before(px as nat, py as nat, (x + 1) as nat, y as nat) {
                        spec_visited(
                            f,
                            start.meta,
                            start.spec_pixel_bytes(px as nat, py as nat),
                            #[trigger] after.spec_pixel_bytes(px as nat, py as nat),
                            px,
                            py,
                        )
                    } else {
                        after.spec_pixel_bytes(px as nat, py as nat) == start.spec_pixel_bytes(
                            px as nat,
                            py as nat,
                        )
                    } by {
                        if px == x && py == y {
                        } else {
                            assert(after.spec_pixel_bytes(px as nat, py as nat)
                                == now.spec_pixel_bytes(px as nat, py as nat));
                        }
                    }
                }
                x = x + 1;
            }
            y = y + 1;
        }
        (None, call)
    }

    /// Walks the rows from `y0` up to `y1`, as far as the image has them:
    /// the part of [`Image::each_pixel`] that one worker does.
    ///
    /// Fails with `Sys(IMAGED_ERR)` where the callback refuses a pixel.
    pub fn each_pixel_rows<F: FnMut(usize, usize, Pixel) -> (Pixel, Result<bool, Error>)>(
        &mut self,
        y0: usize,
        y1: usize,
        f: F,
    ) -> (r: Result<(), Error>)
        requires
            old(self).wf(),
            forall|x: usize, y: usize, p: Pixel| call_requires(f, (x, y, p)),
        ensures
            final(self).wf(),
            r is Err ==> r == Err::<(), Error>(Error::Sys(ImagedStatus::IMAGED_ERR)),
            exists|stop: Option<(usize, usize)>|
                (stop is None <==> r is Ok) && #[trigger] spec_rows_walked(
                    f,
                    old(self)@,
                    final(self)@,
                    spec_clip(y0 as nat, y1 as nat, old(self)@.meta.height as nat).0,
                    spec_clip(y0 as nat, y1 as nat, old(self)@.meta.height as nat).1,
                    stop,
                ),
    {
        let height = self.meta().height();
        let last: usize = if y1 < height { y1 } else { height };
        let first: usize = if y0 < last { y0 } else { last };
        let (stop, _) = self.walk_rows(first, last, f);
        proof {
            let clip = spec_clip(y0 as nat, y1 as nat, old(self)@.meta.height as nat);
            assert(clip == (first as nat, last as nat));
            assert(spec_rows_walked(f, old(self)@, self@, clip.0, clip.1, stop));
        }
        match stop {
            None => Ok(()),
            Some(_) => Err(Error::Sys(ImagedStatus::IMAGED_ERR)),
        }
    }

    /// Iterate over each pixel: hands every pixel to `f`, with its column
    /// and its row, and stores the pixel that `f` returns with `Ok(true)`.
    ///
    /// The rows are cut into one band for each of `nthreads` workers, or for
    /// each processor where `nthreads` is `None`, and the bands are walked
    /// in turn. Where `f` returns `Ok(false)` or an error, no further pixel
    /// is visited and the call fails with `Sys(IMAGED_ERR)`; the pixels
    /// visited before stay as `f` left them.
    pub fn each_pixel<F: FnMut(usize, usize, Pixel) -> (Pixel, Result<bool, Error>)>(
        &mut self,
        nthreads: Option<usize>,
        f: F,
    ) -> (r: Result<(), Error>)
        requires
            old(self).wf(),
            forall|x: usize, y: usize, p: Pixel| call_requires(f, (x, y, p)),
        ensures
            final(self).wf(),
            r is Err ==> r == Err::<(), Error>(Error::Sys(ImagedStatus::IMAGED_ERR)),
            exists|stop: Option<(usize, usize)>|
                (stop is None <==> r is Ok) && #[trigger] spec_rows_walked(
                    f,
                    old(self)@,
                    final(self)@,
                    0,
                    old(self)@.meta.height as nat,
                    stop,
                ),
    {
        let n = match nthreads {
            Some(n) => n,
            None => available_cpus(),
        };
        let height = self.meta().height();
        let bands = partition_rows(height, n);
        let mut call = f;
        let mut i: usize = 0;
        proof {
            lemma_bands_cover(height as nat, bands@.len());
        }
        while i < bands.len()
            invariant
                i <= bands@.len(),
                bands@.len() > 0,
                height == old(self)@.meta.height,
                old(self).wf(),
                self.wf(),
                call == f,
                forall|x: usize, y: usize, p: Pixel| call_requires(f, (x, y, p)),
                forall|j: int|
                    0 <= j < bands@.len() ==> {
                        &&& (#[trigger] bands@[j]).0 == spec_band_start(
                            height as nat,
                            bands@.len(),
                            j as nat,
                        )
                        &&& bands@[j].1 == spec_band_start(
                            height as nat,
                            bands@.len(),
                            (j + 1) as nat,
                        )
                    },
                forall|j: int|
                    0 <= j < bands@.len() ==> (#[trigger] bands@[j]).0 <= bands@[j].1 <= height,
                spec_band_start(height as nat, bands@.len(), bands@.len()) == height,
                spec_walked(
                    f,
                    old(self)@,
                    self@,
                    0,
                    0,
                    spec_band_start(height as nat, bands@.len(), i as nat),
                ),
            decreases bands@.len() - i,
        {
            let (y0, y1) = bands[i];
            let ghost now = self@;
            let (stop, g) = self.walk_rows(y0, y1, call);
            call = g;
            proof {
                lemma_walks_join(f, old(self)@, now, self@, y0 as nat, y1 as nat, stop);
            }
            if stop.is_some() {
                assert(spec_rows_walked(f, old(self)@, self@, 0, height as nat, stop));
                return Err(Error::Sys(ImagedStatus::IMAGED_ERR));
            }
            i = i + 1;
        }
        assert(spec_rows_walked(f, old(self)@, self@, 0, height as nat, None));
        Ok(())
    }
}

/// The pixel at column `x` of row `y` was handed to the callback once, and
/// shows it: the callback got the value that the pixel had in `before`, and
/// the pixel has in `after` what is kept of the value that the callback
/// returned.
pub open spec fn spec_covered<F: FnMut(usize, usize, Pixel) -> (Pixel, Result<bool, Error>)>(
    f: F,
    before: ImageView,
    after: ImageView,
    x: usize,
    y: usize,
) -> bool {
    exists|p: Pixel, q: Pixel|
        {
            &&& p@ == before.spec_pixel(x as nat, y as nat)
            &&& #[trigger] call_ensures(f, (x, y, p), (q, Ok::<bool, Error>(true)))
            &&& after.spec_pixel(x as nat, y as nat) == spec_kept(before.meta, q@)
        }
}

/// Pixel coverage: where the callback never refuses a pixel, a walk over
/// all rows of an image comes to its end, and every pixel of the image was
/// handed to the callback exactly once and shows what the callback made of
/// it.
pub proof fn lemma_pixel_coverage<F: FnMut(usize, usize, Pixel) -> (Pixel, Result<bool, Error>)>(
    f: F,
    before: ImageView,
    after: ImageView,
    stop: Option<(usize, usize)>,
)
    requires
        before.wf(),
        spec_rows_walked(f, before, after, 0, before.meta.height as nat, stop),
        forall|x: usize, y: usize, p: Pixel, q: Pixel, r: Result<bool, Error>|
            call_ensures(f, (x, y, p), (q, r)) ==> r == Ok::<bool, Error>(true),
    ensures
        stop is None,
        forall|x: usize, y: usize|
            before.meta.spec_in_bounds(x as nat, y as nat) ==> #[trigger] spec_covered(
                f,
                before,
                after,
                x,
                y,
            ),
{
    assert forall|x: usize, y: usize|
        before.meta.spec_in_bounds(x as nat, y as nat) implies #[trigger] spec_covered(
        f,
        before,
        after,
        x,
        y,
    ) by {
        let old_bytes = before.spec_pixel_bytes(x as nat, y as nat);
        let new_bytes = after.spec_pixel_bytes(x as nat, y as nat);
        assert(spec_visited(f, before.meta, old_bytes, new_bytes, x, y));
        let (p, q) = choose|p: Pixel, q: Pixel|
            {
                &&& p@ == spec_load_pixel(before.meta, old_bytes)
                &&& #[trigger] call_ensures(f, (x, y, p), (q, Ok::<bool, Error>(true)))
                &&& new_bytes == spec_store_pixel(before.meta, old_bytes, q@)
            };
        crate::image::lemma_index_bounds(before.meta, x as nat, y as nat);
        crate::image::lemma_load_stored_pixel(before.meta, old_bytes, q@);
    }
}

/// The pixel at column `x` of row `y` of a destination was handed to the
/// callback once, together with the pixel at the same place of a source:
/// the callback got the values of the two pixels, asked to go on, and
/// `after` holds the bytes of the destination pixel with the returned value
/// stored.
pub open spec fn spec_visited2<
    F: FnMut(usize, usize, Pixel, Pixel) -> (Pixel, Result<bool, Error>),
>(
    f: F,
    src_meta: ImageMeta,
    src: Seq<u8>,
    meta: ImageMeta,
    before: Seq<u8>,
    after: Seq<u8>,
    x: usize,
    y: usize,
) -> bool {
    exists|s: Pixel, p: Pixel, q: Pixel|
        {
            &&& s@ == spec_load_pixel(src_meta, src)
            &&& p@ == spec_load_pixel(meta, before)
            &&& #[trigger] call_ensures(f, (x, y, s, p), (q, Ok::<bool, Error>(true)))
            &&& after == spec_store_pixel(meta, before, q@)
        }
}

/// The callback got the values of the pixels at column `x` of row `y` of a
/// source and of a destination and did not ask to go on.
pub open spec fn spec_refused2<
    F: FnMut(usize, usize, Pixel, Pixel) -> (Pixel, Result<bool, Error>),
>(f: F, src_meta: ImageMeta, src: Seq<u8>, meta: ImageMeta, before: Seq<u8>, x: usize, y: usize) -> bool {
    exists|s: Pixel, p: Pixel, q: Pixel, r: Result<bool, Error>|
        {
            &&& s@ == spec_load_pixel(src_meta, src)
            &&& p@ == spec_load_pixel(meta, before)
            &&& #[trigger] call_ensures(f, (x, y, s, p), (q, r))
            &&& r != Ok::<bool, Error>(true)
        }
}

/// What holds of a destination while it is walked beside a source and the
/// walk has come to column `cx` of row `cy`: every pixel before that place
/// was visited once, and every other pixel is as it was.
pub open spec fn spec_walked2<
    F: FnMut(usize, usize, Pixel, Pixel) -> (Pixel, Result<bool, Error>),
>(f: F, src: ImageView, before: ImageView, after: ImageView, cx: nat, cy: nat) -> bool {
    &&& after.meta == before.meta
    &&& after.ownership == before.ownership
    &&& after.data.len() == before.data.len()
    &&& forall|x: usize, y: usize|
        before.meta.spec_in_bounds(x as nat, y as nat) ==> if spec_before(
            x as nat,
            y as nat,
            cx,
            cy,
        ) {
            spec_visited2(
                f,
                src.meta,
                src.spec_pixel_bytes(x as nat, y as nat),
                before.meta,
                before.spec_pixel_bytes(x as nat, y as nat),
                #[trigger] after.spec_pixel_bytes(x as nat, y as nat),
                x,
                y,
            )
        } else {
            after.spec_pixel_bytes(x as nat, y as nat) == before.spec_pixel_bytes(
                x as nat,
                y as nat,
            )
        }
}

/// What a walk over a destination beside a source leaves behind. Where it
/// came to an end (`stop` is `None`), every pixel was visited once. Where
/// it stopped at a pixel, the callback refused that pixel, the pixels
/// before it were visited once, and the pixel itself and all that follow
/// are as they were.
pub open spec fn spec_all_walked2<
    F: FnMut(usize, usize, Pixel, Pixel) -> (Pixel, Result<bool, Error>),
>(f: F, src: ImageView, before: ImageView, after: ImageView, stop: Option<(usize, usize)>) -> bool {
    match stop {
        None => spec_walked2(f, src, before, after, 0, before.meta.height as nat),
        Some((ax, ay)) => {
            &&& before.meta.spec_in_bounds(ax as nat, ay as nat)
            &&& spec_walked2(f, src, before, after, ax as nat, ay as nat)
            &&& spec_refused2(
                f,
                src.meta,
                src.spec_pixel_bytes(ax as nat, ay as nat),
                before.meta,
                before.spec_pixel_bytes(ax as nat, ay as nat),
                ax,
                ay,
            )
        },
    }
}

impl Image {
    /// Iterate over each pixel of this image and of a destination of the
    /// same width and height: hands every pixel of this image to `f`, with
    /// its column, its row and the pixel at the same place of `dst`, and
    /// stores the pixel that `f` returns with `Ok(true)` in `dst`. This
    /// image stays as it is.
    ///
    /// The rows are cut into bands as [`Image::each_pixel`] cuts them, and
    /// the bands are walked in turn. Fails with `OutOfBounds`, and calls
    /// nothing, unless the two images have the same width and height. Where
    /// `f` returns `Ok(false)` or an error, no further pixel is visited and
    /// the call fails with `Sys(IMAGED_ERR)`; the pixels visited before stay
    /// as `f` left them.
    pub fn each_pixel2<F: FnMut(usize, usize, Pixel, Pixel) -> (Pixel, Result<bool, Error>)>(
        &self,
        dst: &mut Image,
        nthreads: Option<usize>,
        f: F,
    ) -> (r: Result<(), Error>)
        requires
            self.wf(),
            old(dst).wf(),
            forall|x: usize, y: usize, s: Pixel, p: Pixel| call_requires(f, (x, y, s, p)),
        ensures
            final(dst).wf(),
            ({
                let alike = self@.meta.width == old(dst)@.meta.width && self@.meta.height == old(
                    dst,
                )@.meta.height;
                &&& !alike ==> r == Err::<(), Error>(Error::OutOfBounds) && final(dst)@ == old(
                    dst,
                )@
                &&& alike ==> {
                    &&& r is Err ==> r == Err::<(), Error>(
                        Error::Sys(ImagedStatus::IMAGED_ERR),
                    )
                    &&& exists|stop: Option<(usize, usize)>|
                        (stop is None <==> r is Ok) && #[trigger] spec_all_walked2(
                            f,
                            self@,
                            old(dst)@,
                            final(dst)@,
                            stop,
                        )
                }
            }),
    {
        if self.meta().width != dst.meta().width || self.meta().height != dst.meta().height {
            return Err(Error::OutOfBounds);
        }
        let n = match nthreads {
            Some(n) => n,
            None => available_cpus(),
        };
        let width = dst.meta().width();
        let height = dst.meta().height();
        let bands = partition_rows(height, n);
        let mut call = f;
        let mut i: usize = 0;
        proof {
            lemma_bands_cover(height as nat, bands@.len());
        }
        while i < bands.len()
            invariant
                i <= bands@.len(),
                bands@.len() > 0,
                width == old(dst)@.meta.width,
                height == old(dst)@.meta.height,
                self@.meta.width == width,
                self@.meta.height == height,
                self.wf(),
                old(dst).wf(),
                dst.wf(),
                call == f,
                forall|x: usize, y: usize, s: Pixel, p: Pixel| call_requires(f, (x, y, s, p)),
                forall|j: int|
                    0 <= j < bands@.len() ==> {
                        &&& (#[trigger] bands@[j]).0 == spec_band_start(
                            height as nat,
                            bands@.len(),
                            j as nat,
                        )
                        &&& bands@[j].1 == spec_band_start(
                            height as nat,
                            bands@.len(),
                            (j + 1) as nat,
                        )
                    },
                forall|j: int|
                    0 <= j < bands@.len() ==> (#[trigger] bands@[j]).0 <= bands@[j].1 <= height,
                spec_band_start(height as nat, bands@.len(), bands@.len()) == height,
                spec_walked2(
                    f,
                    self@,
                    old(dst)@,
                    dst@,
                    0,
                    spec_band_start(height as nat, bands@.len(), i as nat),
                ),
            decreases bands@.len() - i,
        {
            let (y0, y1) = bands[i];
            let mut y: usize = y0;
            while y < y1
                invariant
                    y0 <= y <= y1 <= height,
                    width == old(dst)@.meta.width,
                    height == old(dst)@.meta.height,
                    self@.meta.width == width,
                    self@.meta.height == height,
                    self.wf(),
                    old(dst).wf(),
                    dst.wf(),
                    call == f,
                    forall|x: usize, y: usize, s: Pixel, p: Pixel|
                        call_requires(f, (x, y, s, p)),
                    spec_walked2(f, self@, old(dst)@, dst@, 0, y as nat),
                decreases y1 - y,
            {
                let mut x: usize = 0;
                while x < width
                    invariant
                        y < height,
                        x <= width,
                        width == old(dst)@.meta.width,
                        height == old(dst)@.meta.height,
                        self@.meta.width == width,
                        self@.meta.height == height,
                        self.wf(),
                        old(dst).wf(),
                        dst.wf(),
                        call == f,
                        forall|x: usize, y: usize, s: Pixel, p: Pixel|
                            call_requires(f, (x, y, s, p)),
                        spec_walked2(f, self@, old(dst)@, dst@, x as nat, y as nat),
                    decreases width - x,
                {
                    let ghost start = old(dst)@;
                    let ghost now = dst@;
                    let mut s = Pixel::empty();
                    let mut p = Pixel::empty();
                    self.get_pixel(x, y, &mut s);
                    dst.get_pixel(x, y, &mut p);
                    assert(now.spec_pixel_bytes(x as nat, y as nat) == start.spec_pixel_bytes(
                        x as nat,
                        y as nat,
                    ));
                    let (q, go) = call(x, y, s, p);
                    let go_on = match go {
                        Ok(b) => b,
                        Err(_) => false,
                    };
                    if !go_on {
                        proof {
                            assert(spec_refused2(
                                f,
                                self@.meta,
                                self@.spec_pixel_bytes(x as nat, y as nat),
                                start.meta,
                                start.spec_pixel_bytes(x as nat, y as nat),
                                x,
                                y,
                            )) by {
                                assert(call_ensures(f, (x, y, s, p), (q, go)));
                            }
                            assert(spec_all_walked2(f, self@, start, dst@, Some((x, y))));
                        }
                        return Err(Error::Sys(ImagedStatus::IMAGED_ERR));
                    }
                    dst.set_pixel(x, y, &q);
                    proof {
                        lemma_with_pixel(now, x as nat, y as nat, q@);
                        let after = dst@;
                        assert(spec_visited2(
                            f,
                            self@.meta,
                            self@.spec_pixel_bytes(x as nat, y as nat),
                            start.meta,
                            start.spec_pixel_bytes(x as nat, y as nat),
                            after.spec_pixel_bytes(x as nat, y as nat),
                            x,
                            y,
                        )) by {
                            assert(call_ensures(f, (x, y, s, p), (q, Ok::<bool, Error>(true))));
                        }
                        assert forall|px: usize, py: usize|
                            start.meta.spec_in_bounds(px as nat, py as nat) implies if spec_before(
                            px as nat,
                            py as nat,
                            (x + 1) as nat,
                            y as nat,
                        ) {
                            spec_visited2(
                                f,
                                self@.meta,
                                self@.spec_pixel_bytes(px as nat, py as nat),
                                start.meta,
                                start.spec_pixel_bytes(px as nat, py as nat),
                                #[trigger] after.spec_pixel_bytes(px as nat, py as nat),
                                px,
                                py,
                            )
                        } else {
                            after.spec_pixel_bytes(px as nat, py as nat)
                                == start.spec_pixel_bytes(px as nat, py as nat)
                        } by {
                            if px == x && py == y {
                            } else {
                                assert(after.spec_pixel_bytes(px as nat, py as nat)
                                    == now.spec_pixel_bytes(px as nat, py as nat));
                            }
                        }
                    }
                    x = x + 1;
                }
                y = y + 1;
            }
            i = i + 1;
        }
        assert(spec_all_walked2(f, self@, old(dst)@, dst@, None));
        Ok(())
    }
}

/// The rows that a walk from `y0` up to `y1` finds in an image of `height`
/// rows.
pub open spec fn spec_clip(y0: nat, y1: nat, height: nat) -> (nat, nat) {
    let last = if y1 < height {
        y1
    } else {
        height
    };
    let first = if y0 < last {
        y0
    } else {
        last
    };
    (first, last)
}

/// A walk over the rows up to `y0`, followed by a walk over the rows from
/// `y0` up to `y1`, is a walk over the rows up to `y1`.
proof fn lemma_walks_join<F: FnMut(usize, usize, Pixel) -> (Pixel, Result<bool, Error>)>(
    f: F,
    start: ImageView,
    mid: ImageView,
    end: ImageView,
    y0: nat,
    y1: nat,
    stop: Option<(usize, usize)>,
)
    requires
        y0 <= y1,
        spec_walked(f, start, mid, 0, 0, y0),
        spec_rows_walked(f, mid, end, y0, y1, stop),
    ensures
        spec_rows_walked(f, start, end, 0, y1, stop),
{
    let (cx, cy) = match stop {
        None => (0nat, y1),
        Some((ax, ay)) => (ax as nat, ay as nat),
    };
    assert forall|x: usize, y: usize|
        start.meta.spec_in_bounds(x as nat, y as nat) implies if spec_before(
        x as nat,
        y as nat,
        cx,
        cy,
    ) {
        spec_visited(
            f,
            start.meta,
            start.spec_pixel_bytes(x as nat, y as nat),
            #[trigger] end.spec_pixel_bytes(x as nat, y as nat),
            x,
            y,
        )
    } else {
        end.spec_pixel_bytes(x as nat, y as nat) == start.spec_pixel_bytes(x as nat, y as nat)
    } by {
        let m = mid.spec_pixel_bytes(x as nat, y as nat);
        if y < y0 {
            assert(end.spec_pixel_bytes(x as nat, y as nat) == m);
        } else {
            assert(m == start.spec_pixel_bytes(x as nat, y as nat));
        }
    }
}

} // verus!
