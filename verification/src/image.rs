//! An image: metadata together with the bytes of its pixels.
use crate::bytes::{
    le_low, lemma_le_limit_monotonic, lemma_le_limit_values, lemma_le_value_bound,
    lemma_words_bytes_len, lemma_words_bytes_of_words, lemma_words_of_words_bytes,
    lemma_words_prefix, read_words, spec_words, spec_words_bytes, write_words,
};
use crate::error::Error;
use crate::header::{
    decode_header, encode_header, lemma_header_layout, lemma_parse_header_of_header, spec_header,
    spec_parse_header, HEADER_SIZE,
};
use crate::meta::{lemma_total_bytes_by_pixels, Color, ImageMeta, Meta, Type};
use crate::pixel::Pixel;
use crate::sample::{read_samples, spec_sample_bytes, spec_samples, write_samples, Sample};
use vstd::prelude::*;
use vstd::slice::{slice_subrange, slice_to_vec};

verus! {

/// Where the bytes of an image come from.
#[derive(Clone, Copy, Debug, PartialEq, Eq, Structural)]
pub enum Ownership {
    /// The buffer was made for this image and belongs to it alone.
    Owned,
    /// The image shows what an entry of a store held when it was visited.
    Borrowed,
    /// The image shows the file behind an open handle of a store.
    StoreMapped,
}

/// Image type
pub struct Image {
    meta: ImageMeta,
    data: Vec<u8>,
    ownership: Ownership,
}

/// What an image is: its metadata, its bytes in row-major order with the
/// samples of a pixel next to each other, and where the bytes come from.
pub struct ImageView {
    pub meta: ImageMeta,
    pub data: Seq<u8>,
    pub ownership: Ownership,
}

impl ImageMeta {
    /// An image of this shape can be held in memory: the sample type is
    /// valid, both dimensions are in the range of `usize`, and the data
    /// is no larger than an allocation can be.
    pub open spec fn spec_fits(self) -> bool {
        &&& self.valid()
        &&& self.width <= usize::MAX
        &&& self.height <= usize::MAX
        &&& self.spec_total_bytes() <= isize::MAX
    }

    /// Whether an image of this shape can be held in memory.
    pub fn fits(&self) -> (b: bool)
        ensures
            b == self.spec_fits(),
    {
        if !self.is_valid() {
            return false;
        }
        if self.width > usize::MAX as u64 || self.height > usize::MAX as u64 {
            return false;
        }
        match self.checked_total_bytes() {
            Some(n) => n <= isize::MAX as usize,
            None => false,
        }
    }
}

impl ImageMeta {
    /// Whether the image has a pixel at column `x` of row `y`.
    pub open spec fn spec_in_bounds(self, x: nat, y: nat) -> bool {
        x < self.width && y < self.height
    }

    /// The index of the first byte of the pixel at column `x` of row `y`:
    /// rows follow each other, and so do the pixels of a row.
    pub open spec fn spec_index(self, x: nat, y: nat) -> nat {
        (y * self.width as nat + x) * self.spec_pixel_bytes()
    }

    /// The number of samples of the image.
    pub open spec fn spec_num_samples(self) -> nat {
        self.width as nat * self.height as nat * self.spec_channels()
    }

    /// The number of channels that a [`Pixel`] carries: all of them, up to
    /// four.
    pub open spec fn spec_pixel_words(self) -> nat {
        if self.spec_channels() < 4 {
            self.spec_channels()
        } else {
            4
        }
    }
}

/// The file that holds an image: its header, then its data.
pub open spec fn spec_file(meta: ImageMeta, data: Seq<u8>) -> Seq<u8> {
    spec_header(meta) + data
}

/// Whether a file holds an image: it starts with a well-formed header, an
/// image of the shape that the header gives can be held in memory, and
/// behind the header stand as many bytes as the image has, no more and no
/// fewer.
pub open spec fn spec_valid_file(bytes: Seq<u8>) -> bool {
    match spec_parse_header(bytes) {
        Some(meta) => meta.spec_fits() && bytes.len() == HEADER_SIZE + meta.spec_total_bytes(),
        None => false,
    }
}

/// The image that a valid file holds, as an image of the given origin.
pub open spec fn spec_file_image(bytes: Seq<u8>, ownership: Ownership) -> ImageView {
    ImageView {
        meta: spec_parse_header(bytes)->0,
        data: bytes.subrange(HEADER_SIZE as int, bytes.len() as int),
        ownership,
    }
}

/// The file of an image is valid and holds that image: the same metadata
/// and the same bytes.
pub proof fn lemma_file_round_trip(image: ImageView, ownership: Ownership)
    requires
        image.wf(),
    ensures
        spec_valid_file(spec_file(image.meta, image.data)),
        spec_file_image(spec_file(image.meta, image.data), ownership) == (ImageView {
            ownership,
            ..image
        }),
{
    let file = spec_file(image.meta, image.data);
    lemma_header_layout(image.meta);
    lemma_parse_header_of_header(image.meta);
    lemma_file_header(image.meta, image.data);
    assert(file.subrange(HEADER_SIZE as int, file.len() as int) =~= image.data);
}

/// What is parsed from a file depends on its first `HEADER_SIZE` bytes
/// alone, so the header of a file parses as it does by itself.
pub proof fn lemma_file_header(meta: ImageMeta, data: Seq<u8>)
    ensures
        spec_parse_header(spec_file(meta, data)) == spec_parse_header(spec_header(meta)),
{
    let file = spec_file(meta, data);
    let header = spec_header(meta);
    lemma_header_layout(meta);
    assert(file.subrange(0, 8) =~= header.subrange(0, 8));
    assert(file.subrange(8, 16) =~= header.subrange(8, 16));
    assert(file.subrange(20, 24) =~= header.subrange(20, 24));
    assert(file.subrange(24, 28) =~= header.subrange(24, 28));
    assert(file.subrange(28, 32) =~= header.subrange(28, 32));
    assert(file[16] == header[16]);
    assert(file[17] == header[17]);
    assert(file[18] == header[18]);
    assert(file[19] == header[19]);
}

/// A valid file is the file of the image that it holds, byte for byte.
pub proof fn lemma_file_of_file_image(bytes: Seq<u8>, ownership: Ownership)
    requires
        spec_valid_file(bytes),
    ensures
        spec_file_image(bytes, ownership).wf(),
        spec_file(
            spec_file_image(bytes, ownership).meta,
            spec_file_image(bytes, ownership).data,
        ) == bytes,
{
    crate::header::lemma_header_of_parsed(bytes);
    let image = spec_file_image(bytes, ownership);
    assert(spec_file(image.meta, image.data) =~= bytes);
}

/// Whether a file holds an image.
pub fn is_valid_file(bytes: &[u8]) -> (b: bool)
    ensures
        b == spec_valid_file(bytes@),
{
    match decode_header(bytes) {
        None => false,
        Some(meta) => {
            if !meta.fits() {
                return false;
            }
            let n = meta.total_bytes();
            bytes.len() >= HEADER_SIZE && bytes.len() - HEADER_SIZE == n
        },
    }
}

/// The value that the bytes of a pixel stand for: one word for each of the
/// first four channels, and zero for what is left.
pub open spec fn spec_load_pixel(meta: ImageMeta, bytes: Seq<u8>) -> Seq<u32> {
    let k = meta.spec_pixel_words();
    let words = spec_words(bytes, meta.spec_elem_size(), k);
    Seq::new(
        4,
        |c: int|
            if c < k {
                words[c] as u32
            } else {
                0u32
            },
    )
}

/// The bytes of a pixel after a value is stored in it: each of the first
/// four channels gets the low bytes of its word, a fifth channel stays.
pub open spec fn spec_store_pixel(meta: ImageMeta, bytes: Seq<u8>, words: Seq<u32>) -> Seq<u8> {
    let k = meta.spec_pixel_words();
    let e = meta.spec_elem_size();
    spec_words_bytes(words.take(k as int).map_values(|w: u32| w as nat), e) + bytes.subrange(
        (k * e) as int,
        meta.spec_pixel_bytes() as int,
    )
}

/// What is left of a value when it is kept in a pixel: of each word that
/// has a channel the low bytes that a sample holds, and zero elsewhere.
pub open spec fn spec_kept(meta: ImageMeta, words: Seq<u32>) -> Seq<u32> {
    Seq::new(
        4,
        |c: int|
            if c < meta.spec_pixel_words() {
                le_low(words[c] as nat, meta.spec_elem_size()) as u32
            } else {
                0u32
            },
    )
}

/// Storing a value keeps the size of a pixel, and loading the pixel
/// afterwards gives what is kept of the value.
pub proof fn lemma_load_stored_pixel(meta: ImageMeta, bytes: Seq<u8>, words: Seq<u32>)
    requires
        bytes.len() == meta.spec_pixel_bytes(),
        words.len() == 4,
    ensures
        spec_store_pixel(meta, bytes, words).len() == meta.spec_pixel_bytes(),
        spec_load_pixel(meta, spec_store_pixel(meta, bytes, words)) == spec_kept(meta, words),
{
    let k = meta.spec_pixel_words();
    let e = meta.spec_elem_size();
    let kept = words.take(k as int).map_values(|w: u32| w as nat);
    let enc = spec_words_bytes(kept, e);
    let stored = spec_store_pixel(meta, bytes, words);
    lemma_words_bytes_len(kept, e);
    assert(k * e <= meta.spec_channels() * e) by (nonlinear_arith)
        requires
            k <= meta.spec_channels(),
    ;
    assert(stored.subrange(0, (k * e) as int) =~= enc.subrange(0, (k * e) as int));
    lemma_words_prefix(stored, enc, e, k);
    lemma_words_of_words_bytes(kept, e);
    assert(spec_load_pixel(meta, stored) =~= spec_kept(meta, words));
}

/// Storing the value that was loaded from a pixel leaves the pixel as it
/// is.
pub proof fn lemma_store_loaded_pixel(meta: ImageMeta, bytes: Seq<u8>)
    requires
        meta.valid(),
        bytes.len() == meta.spec_pixel_bytes(),
    ensures
        spec_store_pixel(meta, bytes, spec_load_pixel(meta, bytes)) == bytes,
{
    let k = meta.spec_pixel_words();
    let e = meta.spec_elem_size();
    let words = spec_load_pixel(meta, bytes);
    let cut = spec_words(bytes, e, k);
    assert(k * e <= meta.spec_channels() * e) by (nonlinear_arith)
        requires
            k <= meta.spec_channels(),
    ;
    let head = bytes.subrange(0, (k * e) as int);
    assert(head.subrange(0, (k * e) as int) =~= head);
    lemma_words_prefix(bytes, head, e, k);
    lemma_le_limit_values();
    assert forall|c: int| 0 <= c < k implies #[trigger] cut[c] < 0x1_0000_0000 by {
        assert(0 <= c * e && c * e + e <= k * e) by (nonlinear_arith)
            requires
                0 <= c,
                c + 1 <= k,
        ;
        lemma_le_value_bound(bytes.subrange(c * e, c * e + e));
        lemma_le_limit_monotonic(e, 4);
    }
    assert(words.take(k as int).map_values(|w: u32| w as nat) =~= cut);
    lemma_words_bytes_of_words(head, e, k);
    assert(spec_store_pixel(meta, bytes, words) =~= bytes);
}

/// Putting as many bytes as a pixel has in the place of those of a pixel
/// keeps the size of the data, gives that pixel these bytes, and leaves
/// every other pixel as it is.
pub proof fn lemma_with_pixel_bytes(view: ImageView, x: nat, y: nat, bytes: Seq<u8>)
    requires
        view.wf(),
        view.meta.spec_in_bounds(x, y),
        bytes.len() == view.meta.spec_pixel_bytes(),
    ensures
        view.spec_with_pixel_bytes(x, y, bytes).wf(),
        view.spec_with_pixel_bytes(x, y, bytes).spec_pixel_bytes(x, y) == bytes,
        forall|x2: nat, y2: nat|
            view.meta.spec_in_bounds(x2, y2) && (x2 != x || y2 != y)
                ==> #[trigger] view.spec_with_pixel_bytes(x, y, bytes).spec_pixel_bytes(x2, y2)
                == view.spec_pixel_bytes(x2, y2),
{
    let after = view.spec_with_pixel_bytes(x, y, bytes);
    lemma_index_bounds(view.meta, x, y);
    assert(after.spec_pixel_bytes(x, y) =~= bytes);
    assert forall|x2: nat, y2: nat|
        view.meta.spec_in_bounds(x2, y2) && (x2 != x || y2 != y) implies #[trigger] after.spec_pixel_bytes(
        x2,
        y2,
    ) == view.spec_pixel_bytes(x2, y2) by {
        lemma_index_bounds(view.meta, x2, y2);
        lemma_index_disjoint(view.meta, x, y, x2, y2);
        assert(after.spec_pixel_bytes(x2, y2) =~= view.spec_pixel_bytes(x2, y2));
    }
}

/// Setting a pixel keeps the size of the data, gives that pixel the bytes
/// of the stored value, and leaves every other pixel as it is.
pub proof fn lemma_with_pixel(view: ImageView, x: nat, y: nat, words: Seq<u32>)
    requires
        view.wf(),
        view.meta.spec_in_bounds(x, y),
        words.len() == 4,
    ensures
        view.spec_with_pixel(x, y, words).wf(),
        view.spec_with_pixel(x, y, words).spec_pixel_bytes(x, y) == spec_store_pixel(
            view.meta,
            view.spec_pixel_bytes(x, y),
            words,
        ),
        forall|x2: nat, y2: nat|
            view.meta.spec_in_bounds(x2, y2) && (x2 != x || y2 != y) ==> #[trigger] view.spec_with_pixel(
                x,
                y,
                words,
            ).spec_pixel_bytes(x2, y2) == view.spec_pixel_bytes(x2, y2),
{
    lemma_index_bounds(view.meta, x, y);
    let bytes = spec_store_pixel(view.meta, view.spec_pixel_bytes(x, y), words);
    lemma_load_stored_pixel(view.meta, view.spec_pixel_bytes(x, y), words);
    lemma_with_pixel_bytes(view, x, y, bytes);
    assert forall|x2: nat, y2: nat|
        view.meta.spec_in_bounds(x2, y2) && (x2 != x || y2 != y) implies #[trigger] view.spec_with_pixel(
        x,
        y,
        words,
    ).spec_pixel_bytes(x2, y2) == view.spec_pixel_bytes(x2, y2) by {
        assert(view.spec_with_pixel_bytes(x, y, bytes).spec_pixel_bytes(x2, y2)
            == view.spec_pixel_bytes(x2, y2));
    }
}

/// Every pixel of an image lies within its data.
pub proof fn lemma_index_bounds(meta: ImageMeta, x: nat, y: nat)
    requires
        meta.spec_in_bounds(x, y),
    ensures
        y * meta.width as nat + x < meta.width as nat * meta.height as nat,
        meta.spec_index(x, y) + meta.spec_pixel_bytes() <= meta.spec_total_bytes(),
        meta.spec_pixel_words() * meta.spec_elem_size() <= meta.spec_pixel_bytes(),
{
    let w = meta.width as nat;
    let h = meta.height as nat;
    let pb = meta.spec_pixel_bytes();
    let e = meta.spec_elem_size();
    let k = meta.spec_pixel_words();
    let c = meta.spec_channels();
    assert(y * w + x + 1 <= w * h) by (nonlinear_arith)
        requires
            x < w,
            y < h,
    ;
    assert((y * w + x) * pb + pb <= (w * h) * pb) by (nonlinear_arith)
        requires
            y * w + x + 1 <= w * h,
    ;
    assert(k * e <= c * e) by (nonlinear_arith)
        requires
            k <= c,
    ;
    lemma_total_bytes_by_pixels(meta);
}

/// Two different pixels of an image share no byte.
pub proof fn lemma_index_disjoint(meta: ImageMeta, x1: nat, y1: nat, x2: nat, y2: nat)
    requires
        x1 < meta.width,
        x2 < meta.width,
        x1 != x2 || y1 != y2,
    ensures
        meta.spec_index(x1, y1) + meta.spec_pixel_bytes() <= meta.spec_index(x2, y2)
            || meta.spec_index(x2, y2) + meta.spec_pixel_bytes() <= meta.spec_index(x1, y1),
{
    let w = meta.width as nat;
    let pb = meta.spec_pixel_bytes();
    let n1 = y1 * w + x1;
    let n2 = y2 * w + x2;
    if y1 < y2 {
        assert(n1 + 1 <= n2) by (nonlinear_arith)
            requires
                n1 == y1 * w + x1,
                n2 == y2 * w + x2,
                x1 < w,
                y1 + 1 <= y2,
        ;
    } else if y2 < y1 {
        assert(n2 + 1 <= n1) by (nonlinear_arith)
            requires
                n1 == y1 * w + x1,
                n2 == y2 * w + x2,
                x2 < w,
                y2 + 1 <= y1,
        ;
    }
    if n1 < n2 {
        assert(n1 * pb + pb <= n2 * pb) by (nonlinear_arith)
            requires
                n1 + 1 <= n2,
        ;
    } else {
        assert(n2 < n1);
        assert(n2 * pb + pb <= n1 * pb) by (nonlinear_arith)
            requires
                n2 + 1 <= n1,
        ;
    }
}

impl ImageView {
    /// The bytes of the pixel at column `x` of row `y`.
    pub open spec fn spec_pixel_bytes(self, x: nat, y: nat) -> Seq<u8> {
        let at = self.meta.spec_index(x, y);
        self.data.subrange(at as int, (at + self.meta.spec_pixel_bytes()) as int)
    }

    /// The value of the pixel at column `x` of row `y`.
    pub open spec fn spec_pixel(self, x: nat, y: nat) -> Seq<u32> {
        spec_load_pixel(self.meta, self.spec_pixel_bytes(x, y))
    }

    /// The image with other bytes in the place of those of the pixel at
    /// column `x` of row `y`. Nothing else changes.
    pub open spec fn spec_with_pixel_bytes(self, x: nat, y: nat, bytes: Seq<u8>) -> ImageView {
        let at = self.meta.spec_index(x, y);
        ImageView {
            data: self.data.subrange(0, at as int) + bytes + self.data.subrange(
                (at + self.meta.spec_pixel_bytes()) as int,
                self.data.len() as int,
            ),
            ..self
        }
    }

    /// The image with the pixel at column `x` of row `y` set to a value.
    /// Nothing else changes.
    pub open spec fn spec_with_pixel(self, x: nat, y: nat, words: Seq<u32>) -> ImageView {
        self.spec_with_pixel_bytes(
            x,
            y,
            spec_store_pixel(self.meta, self.spec_pixel_bytes(x, y), words),
        )
    }

    /// The metadata fits in memory and the data has the size that the
    /// metadata gives.
    pub open spec fn wf(self) -> bool {
        &&& self.meta.spec_fits()
        &&& self.data.len() == self.meta.spec_total_bytes()
    }
}

impl View for Image {
    type V = ImageView;

    closed spec fn view(&self) -> ImageView {
        ImageView { meta: self.meta, data: self.data@, ownership: self.ownership }
    }
}

impl Image {
    /// The invariant of every image: see [`ImageView::wf`].
    pub open spec fn wf(&self) -> bool {
        self@.wf()
    }

    /// Allocate a new image. The data is all zero bytes.
    ///
    /// Fails with `NullPointer` where no buffer can be had for an image of
    /// this shape.
    pub fn new(meta: Meta) -> (r: Result<Image, Error>)
        ensures
            meta.spec_fits() ==> r is Ok,
            !meta.spec_fits() ==> r == Err::<Image, Error>(Error::NullPointer),
            r is Ok ==> r->Ok_0.wf() && r->Ok_0@ == (ImageView {
                meta,
                data: Seq::new(meta.spec_total_bytes(), |i: int| 0u8),
                ownership: Ownership::Owned,
            }),
    {
        if !meta.fits() {
            return Err(Error::NullPointer);
        }
        let n = meta.total_bytes();
        let data = vec![0u8; n];
        let image = Image { meta, data, ownership: Ownership::Owned };
        assert(image@.data =~= Seq::new(meta.spec_total_bytes(), |i: int| 0u8));
        Ok(image)
    }

    /// Make an image of existing data.
    ///
    /// Fails with `NullPointer` where no image of this shape can be held in
    /// memory, and with `IncorrectImageType` where the data has not the
    /// size that the metadata gives.
    pub fn new_with_data(meta: Meta, data: Vec<u8>) -> (r: Result<Image, Error>)
        ensures
            match r {
                Ok(image) => {
                    &&& meta.spec_fits()
                    &&& data@.len() == meta.spec_total_bytes()
                    &&& image.wf()
                    &&& image@ == (ImageView { meta, data: data@, ownership: Ownership::Owned })
                },
                Err(e) => {
                    &&& !meta.spec_fits() ==> e == Error::NullPointer
                    &&& meta.spec_fits() ==> e == Error::IncorrectImageType && data@.len()
                        != meta.spec_total_bytes()
                },
            },
    {
        if !meta.fits() {
            return Err(Error::NullPointer);
        }
        if data.len() != meta.total_bytes() {
            return Err(Error::IncorrectImageType);
        }
        Ok(Image { meta, data, ownership: Ownership::Owned })
    }

    /// Create a new image similar to an existing image with the color changed
    pub fn new_like_with_color(&self, color: Color) -> (r: Result<Image, Error>)
        ensures
            ({
                let meta = ImageMeta { color: color.spec_ffi(), ..self@.meta };
                &&& meta.spec_fits() ==> r is Ok
                &&& !meta.spec_fits() ==> r == Err::<Image, Error>(Error::NullPointer)
                &&& r is Ok ==> r->Ok_0.wf() && r->Ok_0@ == (ImageView {
                    meta,
                    data: Seq::new(meta.spec_total_bytes(), |i: int| 0u8),
                    ownership: Ownership::Owned,
                })
            }),
    {
        let meta = self.meta.with_color(color);
        Image::new(meta)
    }

    /// Create a new image similar to an existing image with the type changed
    pub fn new_like_with_type(&self, t: Type) -> (r: Result<Image, Error>)
        ensures
            ({
                let meta = ImageMeta {
                    kind: t.spec_info().0,
                    bits: t.spec_info().1,
                    ..self@.meta
                };
                &&& meta.spec_fits() ==> r is Ok
                &&& !meta.spec_fits() ==> r == Err::<Image, Error>(Error::NullPointer)
                &&& r is Ok ==> r->Ok_0.wf() && r->Ok_0@ == (ImageView {
                    meta,
                    data: Seq::new(meta.spec_total_bytes(), |i: int| 0u8),
                    ownership: Ownership::Owned,
                })
            }),
    {
        let meta = self.meta.with_type(t);
        Image::new(meta)
    }

    /// Get metadata
    pub fn meta(&self) -> (meta: &Meta)
        ensures
            *meta == self@.meta,
    {
        &self.meta
    }

    /// Where the bytes of the image come from.
    pub fn ownership(&self) -> (o: Ownership)
        ensures
            o == self@.ownership,
    {
        self.ownership
    }

    /// Get image (width, height, channels)
    pub fn shape(&self) -> (s: (usize, usize, usize))
        requires
            self.wf(),
        ensures
            s.0 == self@.meta.width,
            s.1 == self@.meta.height,
            s.2 == self@.meta.spec_channels(),
    {
        (self.meta.width(), self.meta.height(), self.meta.channels())
    }

    /// The sample type of the image.
    pub fn get_type(&self) -> (t: Type)
        ensures
            t == Type::spec_of(self@.meta.kind, self@.meta.bits),
    {
        self.meta.get_type()
    }

    /// The colour model of the image.
    pub fn get_color(&self) -> (c: Color)
        ensures
            c == self@.meta.color.spec_color(),
    {
        self.meta.get_color()
    }

    /// Size of each channel in the underlying data
    pub fn elem_size(&self) -> (n: usize)
        ensures
            n == self@.meta.spec_elem_size(),
    {
        self.meta.elem_size()
    }

    /// Get the underlying data as a byte slice
    pub fn buffer(&self) -> (r: Result<&[u8], Error>)
        ensures
            r is Ok,
            r->Ok_0@ == self@.data,
    {
        Ok(self.data.as_slice())
    }

    /// Get the underlying data as a mutable byte slice
    pub fn buffer_mut(&mut self) -> (r: Result<&mut [u8], Error>)
        ensures
            r is Ok,
            r->Ok_0@ == old(self)@.data,
            final(self)@ == (ImageView { data: final(r->Ok_0)@, ..old(self)@ }),
    {
        Ok(self.data.as_mut_slice())
    }

    /// The index of the first byte of the pixel at column `x` of row `y`.
    fn index(&self, x: usize, y: usize) -> (at: usize)
        requires
            self.wf(),
            self@.meta.spec_in_bounds(x as nat, y as nat),
        ensures
            at == self@.meta.spec_index(x as nat, y as nat),
            at + self@.meta.spec_pixel_bytes() <= self@.data.len(),
    {
        let pb = self.meta.pixel_bytes();
        proof {
            lemma_index_bounds(self.meta, x as nat, y as nat);
        }
        if pb == 0 {
            assert((y as nat * self.meta.width as nat + x as nat) * 0 == 0) by (nonlinear_arith);
            return 0;
        }
        let ghost w = self.meta.width as nat;
        let ghost h = self.meta.height as nat;
        let ghost n = y as nat * w + x as nat;
        assert(y as nat * w <= n);
        assert(n <= n * pb) by (nonlinear_arith)
            requires
                pb >= 1,
        ;
        let width = self.meta.width();
        (y * width + x) * pb
    }

    /// Determines if the image matches the type parameter `T`: whether its
    /// samples have the size of a `T`.
    pub fn is_type<T: Sample>(&self) -> (b: bool)
        ensures
            b == (T::spec_size() == self@.meta.spec_elem_size()),
    {
        T::size() == self.elem_size()
    }

    /// Get the underlying data as samples of type `T`, in the order in
    /// which the image stores them.
    ///
    /// Fails with `IncorrectImageType` unless a sample of the image has the
    /// size of a `T`.
    pub fn data<T: Sample>(&self) -> (r: Result<Vec<T>, Error>)
        requires
            self.wf(),
        ensures
            match r {
                Ok(samples) => {
                    &&& T::spec_size() == self@.meta.spec_elem_size()
                    &&& samples@ == spec_samples::<T>(self@.data, self@.meta.spec_num_samples())
                },
                Err(e) => e == Error::IncorrectImageType && T::spec_size()
                    != self@.meta.spec_elem_size(),
            },
    {
        let size = T::size();
        if size != self.elem_size() {
            return Err(Error::IncorrectImageType);
        }
        proof {
            T::lemma_sample_words();
        }
        let n = self.data.len() / size;
        proof {
            let count = self@.meta.spec_num_samples();
            assert(self@.meta.spec_total_bytes() == count * size);
            assert((count * size) as int / (size as int) == count) by (nonlinear_arith)
                requires
                    size >= 1,
            ;
            assert(self.data@.subrange(0, 0 + n * size) == self.data@);
        }
        Ok(read_samples::<T>(self.data.as_slice(), 0, n))
    }

    /// Replace the underlying data by samples of type `T`.
    ///
    /// Fails with `IncorrectImageType`, and leaves the image as it is, unless
    /// a sample of the image has the size of a `T` and there is one sample
    /// for each sample of the image.
    pub fn data_mut<T: Sample>(&mut self, samples: &[T]) -> (r: Result<(), Error>)
        requires
            old(self).wf(),
        ensures
            final(self).wf(),
            match r {
                Ok(()) => {
                    &&& T::spec_size() == old(self)@.meta.spec_elem_size()
                    &&& samples@.len() == old(self)@.meta.spec_num_samples()
                    &&& final(self)@ == (ImageView {
                        data: spec_sample_bytes::<T>(samples@),
                        ..old(self)@
                    })
                },
                Err(e) => {
                    &&& e == Error::IncorrectImageType
                    &&& T::spec_size() != old(self)@.meta.spec_elem_size() || samples@.len()
                        != old(self)@.meta.spec_num_samples()
                    &&& final(self)@ == old(self)@
                },
            },
    {
        let size = T::size();
        if size != self.elem_size() {
            return Err(Error::IncorrectImageType);
        }
        proof {
            T::lemma_sample_words();
        }
        let n = self.data.len() / size;
        proof {
            let count = self@.meta.spec_num_samples();
            assert(self@.meta.spec_total_bytes() == count * size);
            assert((count * size) as int / (size as int) == count) by (nonlinear_arith)
                requires
                    size >= 1,
            ;
        }
        if samples.len() != n {
            return Err(Error::IncorrectImageType);
        }
        write_samples::<T>(&mut self.data, 0, samples);
        proof {
            lemma_words_bytes_len(
                samples@.map_values(|v: T| v.spec_to_word()),
                T::spec_size(),
            );
            assert(self.data@ =~= spec_sample_bytes::<T>(samples@));
        }
        Ok(())
    }

    /// Get the samples of the pixel at column `x` of row `y`, one for each
    /// channel.
    ///
    /// Fails with `IncorrectImageType` unless a sample of the image has the
    /// size of a `T`, and else with `OutOfBounds` where the image has no
    /// such pixel.
    pub fn at<T: Sample>(&self, x: usize, y: usize) -> (r: Result<Vec<T>, Error>)
        requires
            self.wf(),
        ensures
            match r {
                Ok(samples) => {
                    &&& T::spec_size() == self@.meta.spec_elem_size()
                    &&& self@.meta.spec_in_bounds(x as nat, y as nat)
                    &&& samples@ == spec_samples::<T>(
                        self@.spec_pixel_bytes(x as nat, y as nat),
                        self@.meta.spec_channels(),
                    )
                },
                Err(e) => {
                    &&& T::spec_size() != self@.meta.spec_elem_size() ==> e
                        == Error::IncorrectImageType
                    &&& T::spec_size() == self@.meta.spec_elem_size() ==> e == Error::OutOfBounds
                        && !self@.meta.spec_in_bounds(x as nat, y as nat)
                },
            },
    {
        if T::size() != self.elem_size() {
            return Err(Error::IncorrectImageType);
        }
        if x as u64 >= self.meta.width || y as u64 >= self.meta.height {
            return Err(Error::OutOfBounds);
        }
        let at = self.index(x, y);
        Ok(read_samples::<T>(self.data.as_slice(), at, self.meta.channels()))
    }

    /// Set the samples of the pixel at column `x` of row `y`, one for each
    /// channel.
    ///
    /// Fails with `IncorrectImageType` unless a sample of the image has the
    /// size of a `T` and there is one sample for each channel, and else
    /// with `OutOfBounds` where the image has no such pixel. The image
    /// stays as it is then.
    pub fn set_at<T: Sample>(&mut self, x: usize, y: usize, samples: &[T]) -> (r: Result<
        (),
        Error,
    >)
        requires
            old(self).wf(),
        ensures
            final(self).wf(),
            ({
                let meta = old(self)@.meta;
                let typed = T::spec_size() == meta.spec_elem_size() && samples@.len()
                    == meta.spec_channels();
                match r {
                    Ok(()) => {
                        &&& typed
                        &&& meta.spec_in_bounds(x as nat, y as nat)
                        &&& final(self)@ == old(self)@.spec_with_pixel_bytes(
                            x as nat,
                            y as nat,
                            spec_sample_bytes::<T>(samples@),
                        )
                    },
                    Err(e) => {
                        &&& final(self)@ == old(self)@
                        &&& !typed ==> e == Error::IncorrectImageType
                        &&& typed ==> e == Error::OutOfBounds && !meta.spec_in_bounds(
                            x as nat,
                            y as nat,
                        )
                    },
                }
            }),
    {
        if T::size() != self.elem_size() || samples.len() != self.meta.channels() {
            return Err(Error::IncorrectImageType);
        }
        if x as u64 >= self.meta.width || y as u64 >= self.meta.height {
            return Err(Error::OutOfBounds);
        }
        let at = self.index(x, y);
        let ghost before = self@;
        write_samples::<T>(&mut self.data, at, samples);
        proof {
            lemma_words_bytes_len(
                samples@.map_values(|v: T| v.spec_to_word()),
                T::spec_size(),
            );
            assert(self@.data =~= before.spec_with_pixel_bytes(
                x as nat,
                y as nat,
                spec_sample_bytes::<T>(samples@),
            ).data);
        }
        Ok(())
    }

    /// Get the pixel at (x, y). Returns false, and leaves `px` as it is,
    /// where the image has no such pixel.
    pub fn get_pixel(&self, x: usize, y: usize, px: &mut Pixel) -> (found: bool)
        requires
            self.wf(),
        ensures
            found == self@.meta.spec_in_bounds(x as nat, y as nat),
            found ==> final(px)@ == self@.spec_pixel(x as nat, y as nat),
            !found ==> *final(px) == *old(px),
    {
        if x as u64 >= self.meta.width || y as u64 >= self.meta.height {
            return false;
        }
        let at = self.index(x, y);
        let channels = self.meta.channels();
        let k: usize = if channels < 4 { channels } else { 4 };
        let e = self.meta.elem_size();
        proof {
            lemma_index_bounds(self.meta, x as nat, y as nat);
        }
        let words = read_words(self.data.as_slice(), at, e, k);
        let mut data: [u32; 4] = [0, 0, 0, 0];
        let mut c: usize = 0;
        while c < k
            invariant
                c <= k <= 4,
                words@.len() == k,
                forall|j: int| 0 <= j < c ==> data@[j] == words@[j],
                forall|j: int| c <= j < 4 ==> data@[j] == 0u32,
            decreases k - c,
        {
            data[c] = words[c];
            c = c + 1;
        }
        px.data = data;
        proof {
            let head = self@.data.subrange(at as int, at + k * e);
            let cut = spec_words(head, e as nat, k as nat);
            let bytes = self@.spec_pixel_bytes(x as nat, y as nat);
            assert(bytes.subrange(0, (k * e) as int) =~= head.subrange(0, (k * e) as int));
            lemma_words_prefix(bytes, head, e as nat, k as nat);
            assert forall|j: int| 0 <= j < k implies cut[j] as u32 == words@[j] by {
                assert(words@.map_values(|w: u32| w as nat)[j] == words@[j] as nat);
            }
            assert(px@ =~= self@.spec_pixel(x as nat, y as nat));
        }
        true
    }

    /// Set the pixel at (x, y). Returns false, and leaves the image as it
    /// is, where the image has no such pixel.
    pub fn set_pixel(&mut self, x: usize, y: usize, px: &Pixel) -> (found: bool)
        requires
            old(self).wf(),
        ensures
            final(self).wf(),
            found == old(self)@.meta.spec_in_bounds(x as nat, y as nat),
            found ==> final(self)@ == old(self)@.spec_with_pixel(x as nat, y as nat, px@),
            !found ==> final(self)@ == old(self)@,
    {
        if x as u64 >= self.meta.width || y as u64 >= self.meta.height {
            return false;
        }
        let at = self.index(x, y);
        let channels = self.meta.channels();
        let k: usize = if channels < 4 { channels } else { 4 };
        let e = self.meta.elem_size();
        proof {
            lemma_index_bounds(self.meta, x as nat, y as nat);
        }
        let mut words: Vec<u32> = Vec::new();
        let mut c: usize = 0;
        while c < k
            invariant
                c <= k <= 4,
                words@.len() == c,
                forall|j: int| 0 <= j < c ==> words@[j] == px.data@[j],
            decreases k - c,
        {
            words.push(px.data[c]);
            c = c + 1;
        }
        assert(words@ =~= px@.take(k as int));
        let ghost before = self@;
        write_words(&mut self.data, at, e, words.as_slice());
        proof {
            lemma_words_bytes_len(words@.map_values(|w: u32| w as nat), e as nat);
            assert(self@.data =~= before.spec_with_pixel(x as nat, y as nat, px@).data);
        }
        true
    }

    /// The file that holds the image: its header, then its data.
    pub fn to_file(&self) -> (file: Vec<u8>)
        requires
            self.wf(),
        ensures
            file@ == spec_file(self@.meta, self@.data),
            spec_valid_file(file@),
    {
        let mut file = encode_header(&self.meta);
        file.extend_from_slice(self.data.as_slice());
        proof {
            lemma_file_round_trip(self@, self@.ownership);
            assert(file@ =~= spec_file(self@.meta, self@.data));
        }
        file
    }

    /// The image that a file holds, as an image of the given origin, if the
    /// file holds one.
    pub fn from_file(bytes: &[u8], ownership: Ownership) -> (r: Option<Image>)
        ensures
            r is Some == spec_valid_file(bytes@),
            r is Some ==> r->0.wf() && r->0@ == spec_file_image(bytes@, ownership),
    {
        if !is_valid_file(bytes) {
            return None;
        }
        match decode_header(bytes) {
            None => None,
            Some(meta) => {
                let data = slice_to_vec(slice_subrange(bytes, HEADER_SIZE, bytes.len()));
                Some(Image { meta, data, ownership })
            },
        }
    }

    /// The same image as one of another origin.
    pub fn with_ownership(self, ownership: Ownership) -> (image: Image)
        ensures
            image@ == (ImageView { ownership, ..self@ }),
    {
        Image { meta: self.meta, data: self.data, ownership }
    }

    /// The metadata of this image with another colour model and sample
    /// type: what a conversion to them gives.
    pub open spec fn spec_converted(&self, color: Color, t: Type) -> ImageMeta {
        ImageMeta {
            color: color.spec_ffi(),
            kind: t.spec_info().0,
            bits: t.spec_info().1,
            ..self@.meta
        }
    }

    /// The metadata of this image with another width and height: what a
    /// resize to them gives.
    pub open spec fn spec_resized(&self, width: usize, height: usize) -> ImageMeta {
        ImageMeta { width: width as u64, height: height as u64, ..self@.meta }
    }

    /// Convert an image colorspace, allocating a new image. `converted` is
    /// what the conversion library made of the bytes of this image for the
    /// new colour model and sample type, or `None` where it has no such
    /// conversion.
    ///
    /// Fails with `IncorrectImageType` where there is no conversion, and
    /// where what was converted is no image of the new type and of the
    /// width and height of this one.
    pub fn convert(&self, color: Color, t: Type, converted: Option<Vec<u8>>) -> (r: Result<
        Image,
        Error,
    >)
        ensures
            ({
                let target = self.spec_converted(color, t);
                let fitting = converted is Some && target.spec_fits() && converted->0@.len()
                    == target.spec_total_bytes();
                match r {
                    Ok(image) => {
                        &&& fitting
                        &&& image.wf()
                        &&& image@ == (ImageView {
                            meta: target,
                            data: converted->0@,
                            ownership: Ownership::Owned,
                        })
                    },
                    Err(e) => e == Error::IncorrectImageType && !fitting,
                }
            }),
    {
        let target = self.meta.with_color(color).with_type(t);
        match converted {
            None => Err(Error::IncorrectImageType),
            Some(data) => match Image::new_with_data(target, data) {
                Ok(image) => Ok(image),
                Err(_) => Err(Error::IncorrectImageType),
            },
        }
    }

    /// Convert an image colorspace based on the destination image type.
    /// `converted` is what the conversion library made of the bytes of this
    /// image for the colour model and sample type of `dest`, or `None`
    /// where it has no such conversion.
    ///
    /// Fails with `IncorrectImageType`, and leaves `dest` as it is, where
    /// there is no conversion, where the two images differ in width or
    /// height, and where what was converted has not the size of `dest`.
    pub fn convert_to(&self, dest: &mut Image, converted: Option<Vec<u8>>) -> (r: Result<
        (),
        Error,
    >)
        requires
            old(dest).wf(),
        ensures
            final(dest).wf(),
            ({
                let fitting = converted is Some && self@.meta.width == old(dest)@.meta.width
                    && self@.meta.height == old(dest)@.meta.height && converted->0@.len() == old(
                    dest,
                )@.data.len();
                match r {
                    Ok(()) => fitting && final(dest)@ == (ImageView {
                        data: converted->0@,
                        ..old(dest)@
                    }),
                    Err(e) => e == Error::IncorrectImageType && !fitting && final(dest)@ == old(
                        dest,
                    )@,
                }
            }),
    {
        if self.meta.width != dest.meta.width || self.meta.height != dest.meta.height {
            return Err(Error::IncorrectImageType);
        }
        match converted {
            None => Err(Error::IncorrectImageType),
            Some(data) => {
                if data.len() != dest.data.len() {
                    return Err(Error::IncorrectImageType);
                }
                dest.data = data;
                Ok(())
            },
        }
    }

    /// Convert an image colorspace in-place, overwriting the source image.
    /// `converted` is what the conversion library made of the bytes of this
    /// image for the new colour model and sample type, or `None` where it
    /// has no such conversion.
    ///
    /// Fails with `IncorrectImageType`, and leaves the image as it is,
    /// where there is no conversion, and where what was converted is no
    /// image of the new type and of the width and height of this one.
    pub fn convert_in_place(&mut self, color: Color, t: Type, converted: Option<Vec<u8>>) -> (r:
        Result<(), Error>)
        requires
            old(self).wf(),
        ensures
            final(self).wf(),
            ({
                let target = old(self).spec_converted(color, t);
                let fitting = converted is Some && target.spec_fits() && converted->0@.len()
                    == target.spec_total_bytes();
                match r {
                    Ok(()) => fitting && final(self)@ == (ImageView {
                        meta: target,
                        data: converted->0@,
                        ..old(self)@
                    }),
                    Err(e) => e == Error::IncorrectImageType && !fitting && final(self)@ == old(
                        self,
                    )@,
                }
            }),
    {
        let target = self.meta.with_color(color).with_type(t);
        match converted {
            None => Err(Error::IncorrectImageType),
            Some(data) => {
                if !target.fits() {
                    return Err(Error::IncorrectImageType);
                }
                if data.len() != target.total_bytes() {
                    return Err(Error::IncorrectImageType);
                }
                self.meta = target;
                self.data = data;
                Ok(())
            },
        }
    }

    /// Resize an image to the given size. `resampled` is what the
    /// resampling made of the bytes of this image for the new width and
    /// height, or `None` where it failed.
    ///
    /// Fails with `NullPointer` where the resampling failed, and where what
    /// was resampled is no image of the new width and height and of the
    /// type of this one.
    pub fn resize(&self, width: usize, height: usize, resampled: Option<Vec<u8>>) -> (r: Result<
        Image,
        Error,
    >)
        ensures
            ({
                let target = self.spec_resized(width, height);
                let fitting = resampled is Some && target.spec_fits() && resampled->0@.len()
                    == target.spec_total_bytes();
                match r {
                    Ok(image) => {
                        &&& fitting
                        &&& image.wf()
                        &&& image@ == (ImageView {
                            meta: target,
                            data: resampled->0@,
                            ownership: Ownership::Owned,
                        })
                    },
                    Err(e) => e == Error::NullPointer && !fitting,
                }
            }),
    {
        let target = ImageMeta {
            width: width as u64,
            height: height as u64,
            color: self.meta.color,
            kind: self.meta.kind,
            bits: self.meta.bits,
        };
        match resampled {
            None => Err(Error::NullPointer),
            Some(data) => match Image::new_with_data(target, data) {
                Ok(image) => Ok(image),
                Err(_) => Err(Error::NullPointer),
            },
        }
    }

    /// Resize an image to match the destination image size. `resampled` is
    /// what the resampling made of the bytes of this image for the width
    /// and height of `dest`, or `None` where it failed.
    ///
    /// Fails with `NullPointer`, and leaves `dest` as it is, where the
    /// resampling failed, where the two images differ in colour model or
    /// sample type, and where what was resampled has not the size of
    /// `dest`.
    pub fn resize_to(&self, dest: &mut Image, resampled: Option<Vec<u8>>) -> (r: Result<
        (),
        Error,
    >)
        requires
            old(dest).wf(),
        ensures
            final(dest).wf(),
            ({
                let fitting = resampled is Some && self@.meta.color == old(dest)@.meta.color
                    && self@.meta.kind == old(dest)@.meta.kind && self@.meta.bits == old(
                    dest,
                )@.meta.bits && resampled->0@.len() == old(dest)@.data.len();
                match r {
                    Ok(()) => fitting && final(dest)@ == (ImageView {
                        data: resampled->0@,
                        ..old(dest)@
                    }),
                    Err(e) => e == Error::NullPointer && !fitting && final(dest)@ == old(dest)@,
                }
            }),
    {
        if self.meta.color != dest.meta.color || self.meta.kind != dest.meta.kind
            || self.meta.bits != dest.meta.bits {
            return Err(Error::NullPointer);
        }
        match resampled {
            None => Err(Error::NullPointer),
            Some(data) => {
                if data.len() != dest.data.len() {
                    return Err(Error::NullPointer);
                }
                dest.data = data;
                Ok(())
            },
        }
    }

    /// Copy an image: the copy has the same metadata and the same bytes in
    /// a buffer of its own.
    pub fn clone(&self) -> (image: Image)
        ensures
            image@ == (ImageView { ownership: Ownership::Owned, ..self@ }),
    {
        Image {
            meta: self.meta,
            data: slice_to_vec(self.data.as_slice()),
            ownership: Ownership::Owned,
        }
    }
}

} // verus!
