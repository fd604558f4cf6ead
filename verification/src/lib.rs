//! A keyed store of typed image buffers.
//!
//! The crate has three layers. [`ImageMeta`] describes the shape and sample
//! type of an image, and [`Image`] pairs such a descriptor with its bytes.
//! [`DB`] keeps images under string keys as byte-exact files, with one lock
//! per key. The pixel engine walks every pixel of an image, band by band.
//!
//! Everything here is pure: a [`DB`] is the image of a directory in memory.
//! Reading that directory from disk, and writing it back, is left to the
//! caller.
#![allow(non_camel_case_types)]

pub mod bytes;
pub mod db;
pub mod engine;
pub mod error;
pub mod for_each;
pub mod header;
pub mod image;
pub mod iter;
pub mod laws;
pub mod lock;
pub mod meta;
pub mod pixel;
pub mod raw;
pub mod sample;

pub use db::{DBView, Entry, Handle, HandleView, SlotView, DB};
pub use engine::partition_rows;
pub use error::{Error, ImagedStatus};
pub use iter::{Iter, IterView, KeyIter};
pub use image::{Image, ImageView, Ownership};
pub use lock::LockState;
pub use meta::{Color, ImageColor, ImageKind, ImageMeta, Meta, Type};
pub use pixel::Pixel;
pub use raw::{halide_buffer, RawBuffer};
pub use sample::Sample;
