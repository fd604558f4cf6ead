//! Image metadata: colour model, sample type, dimensions and the sizes that
//! follow from them.
use vstd::prelude::*;

verus! {

/// Numeric representation of one sample, as the store records it.
#[derive(Clone, Copy, Debug, PartialEq, Eq, Structural)]
pub enum ImageKind {
    IMAGE_KIND_INT,
    IMAGE_KIND_UINT,
    IMAGE_KIND_FLOAT,
}

impl ImageKind {
    /// The number under which the store records the kind.
    pub open spec fn spec_code(self) -> u32 {
        match self {
            ImageKind::IMAGE_KIND_INT => 0,
            ImageKind::IMAGE_KIND_UINT => 1,
            ImageKind::IMAGE_KIND_FLOAT => 2,
        }
    }

    /// The kind recorded under a number, if there is one.
    pub open spec fn spec_from_code(c: u32) -> Option<ImageKind> {
        if c == 0 {
            Some(ImageKind::IMAGE_KIND_INT)
        } else if c == 1 {
            Some(ImageKind::IMAGE_KIND_UINT)
        } else if c == 2 {
            Some(ImageKind::IMAGE_KIND_FLOAT)
        } else {
            None
        }
    }

    pub fn code(self) -> (c: u32)
        ensures
            c == self.spec_code(),
    {
        match self {
            ImageKind::IMAGE_KIND_INT => 0,
            ImageKind::IMAGE_KIND_UINT => 1,
            ImageKind::IMAGE_KIND_FLOAT => 2,
        }
    }

    pub fn from_code(c: u32) -> (k: Option<ImageKind>)
        ensures
            k == Self::spec_from_code(c),
    {
        if c == 0 {
            Some(ImageKind::IMAGE_KIND_INT)
        } else if c == 1 {
            Some(ImageKind::IMAGE_KIND_UINT)
        } else if c == 2 {
            Some(ImageKind::IMAGE_KIND_FLOAT)
        } else {
            None
        }
    }
}

/// Colour model of an image, as the store records it.
#[derive(Clone, Copy, Debug, PartialEq, Eq, Structural)]
pub enum ImageColor {
    IMAGE_COLOR_UNKNOWN,
    IMAGE_COLOR_GRAY,
    IMAGE_COLOR_GRAYA,
    IMAGE_COLOR_RGB,
    IMAGE_COLOR_RGBA,
    IMAGE_COLOR_CMYK,
    IMAGE_COLOR_CMYKA,
    IMAGE_COLOR_YCBCR,
    IMAGE_COLOR_YCBCRA,
    IMAGE_COLOR_CIELAB,
    IMAGE_COLOR_CIELABA,
    IMAGE_COLOR_CIELCH,
    IMAGE_COLOR_CIELCHA,
    IMAGE_COLOR_CIEXYZ,
    IMAGE_COLOR_CIEXYZA,
    IMAGE_COLOR_YUV,
    IMAGE_COLOR_YUVA,
    IMAGE_COLOR_HSL,
    IMAGE_COLOR_HSLA,
    IMAGE_COLOR_HSV,
    IMAGE_COLOR_HSVA,
    IMAGE_COLOR_CIEXYY,
    IMAGE_COLOR_CIEXYYA,
    IMAGE_COLOR_HCY,
    IMAGE_COLOR_HCYA,
}

impl ImageColor {
    /// The number under which the store records the colour model.
    pub open spec fn spec_code(self) -> u32 {
        match self {
            ImageColor::IMAGE_COLOR_UNKNOWN => 0,
            ImageColor::IMAGE_COLOR_GRAY => 1,
            ImageColor::IMAGE_COLOR_GRAYA => 2,
            ImageColor::IMAGE_COLOR_RGB => 3,
            ImageColor::IMAGE_COLOR_RGBA => 4,
            ImageColor::IMAGE_COLOR_CMYK => 5,
            ImageColor::IMAGE_COLOR_CMYKA => 6,
            ImageColor::IMAGE_COLOR_YCBCR => 7,
            ImageColor::IMAGE_COLOR_YCBCRA => 8,
            ImageColor::IMAGE_COLOR_CIELAB => 9,
            ImageColor::IMAGE_COLOR_CIELABA => 10,
            ImageColor::IMAGE_COLOR_CIELCH => 11,
            ImageColor::IMAGE_COLOR_CIELCHA => 12,
            ImageColor::IMAGE_COLOR_CIEXYZ => 13,
            ImageColor::IMAGE_COLOR_CIEXYZA => 14,
            ImageColor::IMAGE_COLOR_YUV => 15,
            ImageColor::IMAGE_COLOR_YUVA => 16,
            ImageColor::IMAGE_COLOR_HSL => 17,
            ImageColor::IMAGE_COLOR_HSLA => 18,
            ImageColor::IMAGE_COLOR_HSV => 19,
            ImageColor::IMAGE_COLOR_HSVA => 20,
            ImageColor::IMAGE_COLOR_CIEXYY => 21,
            ImageColor::IMAGE_COLOR_CIEXYYA => 22,
            ImageColor::IMAGE_COLOR_HCY => 23,
            ImageColor::IMAGE_COLOR_HCYA => 24,
        }
    }

    /// The colour model recorded under a number, if there is one.
    pub open spec fn spec_from_code(c: u32) -> Option<ImageColor> {
        if c == 0 {
            Some(ImageColor::IMAGE_COLOR_UNKNOWN)
        } else if c == 1 {
            Some(ImageColor::IMAGE_COLOR_GRAY)
        } else if c == 2 {
            Some(ImageColor::IMAGE_COLOR_GRAYA)
        } else if c == 3 {
            Some(ImageColor::IMAGE_COLOR_RGB)
        } else if c == 4 {
            Some(ImageColor::IMAGE_COLOR_RGBA)
        } else if c == 5 {
            Some(ImageColor::IMAGE_COLOR_CMYK)
        } else if c == 6 {
            Some(ImageColor::IMAGE_COLOR_CMYKA)
        } else if c == 7 {
            Some(ImageColor::IMAGE_COLOR_YCBCR)
        } else if c == 8 {
            Some(ImageColor::IMAGE_COLOR_YCBCRA)
        } else if c == 9 {
            Some(ImageColor::IMAGE_COLOR_CIELAB)
        } else if c == 10 {
            Some(ImageColor::IMAGE_COLOR_CIELABA)
        } else if c == 11 {
            Some(ImageColor::IMAGE_COLOR_CIELCH)
        } else if c == 12 {
            Some(ImageColor::IMAGE_COLOR_CIELCHA)
        } else if c == 13 {
            Some(ImageColor::IMAGE_COLOR_CIEXYZ)
        } else if c == 14 {
            Some(ImageColor::IMAGE_COLOR_CIEXYZA)
        } else if c == 15 {
            Some(ImageColor::IMAGE_COLOR_YUV)
        } else if c == 16 {
            Some(ImageColor::IMAGE_COLOR_YUVA)
        } else if c == 17 {
            Some(ImageColor::IMAGE_COLOR_HSL)
        } else if c == 18 {
            Some(ImageColor::IMAGE_COLOR_HSLA)
        } else if c == 19 {
            Some(ImageColor::IMAGE_COLOR_HSV)
        } else if c == 20 {
            Some(ImageColor::IMAGE_COLOR_HSVA)
        } else if c == 21 {
            Some(ImageColor::IMAGE_COLOR_CIEXYY)
        } else if c == 22 {
            Some(ImageColor::IMAGE_COLOR_CIEXYYA)
        } else if c == 23 {
            Some(ImageColor::IMAGE_COLOR_HCY)
        } else if c == 24 {
            Some(ImageColor::IMAGE_COLOR_HCYA)
        } else {
            None
        }
    }

    /// The number of samples that one pixel of this colour model has: three
    /// for every model but gray (one) and CMYK (four), and one more where
    /// the model carries an alpha channel. An unknown model has none.
    pub open spec fn spec_channels(self) -> nat {
        match self {
            ImageColor::IMAGE_COLOR_UNKNOWN => 0,
            ImageColor::IMAGE_COLOR_GRAY => 1,
            ImageColor::IMAGE_COLOR_GRAYA => 2,
            ImageColor::IMAGE_COLOR_RGB => 3,
            ImageColor::IMAGE_COLOR_RGBA => 4,
            ImageColor::IMAGE_COLOR_CMYK => 4,
            ImageColor::IMAGE_COLOR_CMYKA => 5,
            ImageColor::IMAGE_COLOR_YCBCR => 3,
            ImageColor::IMAGE_COLOR_YCBCRA => 4,
            ImageColor::IMAGE_COLOR_CIELAB => 3,
            ImageColor::IMAGE_COLOR_CIELABA => 4,
            ImageColor::IMAGE_COLOR_CIELCH => 3,
            ImageColor::IMAGE_COLOR_CIELCHA => 4,
            ImageColor::IMAGE_COLOR_CIEXYZ => 3,
            ImageColor::IMAGE_COLOR_CIEXYZA => 4,
            ImageColor::IMAGE_COLOR_YUV => 3,
            ImageColor::IMAGE_COLOR_YUVA => 4,
            ImageColor::IMAGE_COLOR_HSL => 3,
            ImageColor::IMAGE_COLOR_HSLA => 4,
            ImageColor::IMAGE_COLOR_HSV => 3,
            ImageColor::IMAGE_COLOR_HSVA => 4,
            ImageColor::IMAGE_COLOR_CIEXYY => 3,
            ImageColor::IMAGE_COLOR_CIEXYYA => 4,
            ImageColor::IMAGE_COLOR_HCY => 3,
            ImageColor::IMAGE_COLOR_HCYA => 4,
        }
    }

    pub fn code(self) -> (c: u32)
        ensures
            c == self.spec_code(),
    {
        match self {
            ImageColor::IMAGE_COLOR_UNKNOWN => 0,
            ImageColor::IMAGE_COLOR_GRAY => 1,
            ImageColor::IMAGE_COLOR_GRAYA => 2,
            ImageColor::IMAGE_COLOR_RGB => 3,
            ImageColor::IMAGE_COLOR_RGBA => 4,
            ImageColor::IMAGE_COLOR_CMYK => 5,
            ImageColor::IMAGE_COLOR_CMYKA => 6,
            ImageColor::IMAGE_COLOR_YCBCR => 7,
            ImageColor::IMAGE_COLOR_YCBCRA => 8,
            ImageColor::IMAGE_COLOR_CIELAB => 9,
            ImageColor::IMAGE_COLOR_CIELABA => 10,
            ImageColor::IMAGE_COLOR_CIELCH => 11,
            ImageColor::IMAGE_COLOR_CIELCHA => 12,
            ImageColor::IMAGE_COLOR_CIEXYZ => 13,
            ImageColor::IMAGE_COLOR_CIEXYZA => 14,
            ImageColor::IMAGE_COLOR_YUV => 15,
            ImageColor::IMAGE_COLOR_YUVA => 16,
            ImageColor::IMAGE_COLOR_HSL => 17,
            ImageColor::IMAGE_COLOR_HSLA => 18,
            ImageColor::IMAGE_COLOR_HSV => 19,
            ImageColor::IMAGE_COLOR_HSVA => 20,
            ImageColor::IMAGE_COLOR_CIEXYY => 21,
            ImageColor::IMAGE_COLOR_CIEXYYA => 22,
            ImageColor::IMAGE_COLOR_HCY => 23,
            ImageColor::IMAGE_COLOR_HCYA => 24,
        }
    }

    pub fn from_code(c: u32) -> (k: Option<ImageColor>)
        ensures
            k == Self::spec_from_code(c),
    {
        match c {
            0 => Some(ImageColor::IMAGE_COLOR_UNKNOWN),
            1 => Some(ImageColor::IMAGE_COLOR_GRAY),
            2 => Some(ImageColor::IMAGE_COLOR_GRAYA),
            3 => Some(ImageColor::IMAGE_COLOR_RGB),
            4 => Some(ImageColor::IMAGE_COLOR_RGBA),
            5 => Some(ImageColor::IMAGE_COLOR_CMYK),
            6 => Some(ImageColor::IMAGE_COLOR_CMYKA),
            7 => Some(ImageColor::IMAGE_COLOR_YCBCR),
            8 => Some(ImageColor::IMAGE_COLOR_YCBCRA),
            9 => Some(ImageColor::IMAGE_COLOR_CIELAB),
            10 => Some(ImageColor::IMAGE_COLOR_CIELABA),
            11 => Some(ImageColor::IMAGE_COLOR_CIELCH),
            12 => Some(ImageColor::IMAGE_COLOR_CIELCHA),
            13 => Some(ImageColor::IMAGE_COLOR_CIEXYZ),
            14 => Some(ImageColor::IMAGE_COLOR_CIEXYZA),
            15 => Some(ImageColor::IMAGE_COLOR_YUV),
            16 => Some(ImageColor::IMAGE_COLOR_YUVA),
            17 => Some(ImageColor::IMAGE_COLOR_HSL),
            18 => Some(ImageColor::IMAGE_COLOR_HSLA),
            19 => Some(ImageColor::IMAGE_COLOR_HSV),
            20 => Some(ImageColor::IMAGE_COLOR_HSVA),
            21 => Some(ImageColor::IMAGE_COLOR_CIEXYY),
            22 => Some(ImageColor::IMAGE_COLOR_CIEXYYA),
            23 => Some(ImageColor::IMAGE_COLOR_HCY),
            24 => Some(ImageColor::IMAGE_COLOR_HCYA),
            _ => None,
        }
    }

    /// Get the number of channels.
    pub fn channels(self) -> (n: usize)
        ensures
            n == self.spec_channels(),
            n <= 5,
    {
        match self {
            ImageColor::IMAGE_COLOR_UNKNOWN => 0,
            ImageColor::IMAGE_COLOR_GRAY => 1,
            ImageColor::IMAGE_COLOR_GRAYA => 2,
            ImageColor::IMAGE_COLOR_CMYKA => 5,
            ImageColor::IMAGE_COLOR_RGB
            | ImageColor::IMAGE_COLOR_YCBCR
            | ImageColor::IMAGE_COLOR_CIELAB
            | ImageColor::IMAGE_COLOR_CIELCH
            | ImageColor::IMAGE_COLOR_CIEXYZ
            | ImageColor::IMAGE_COLOR_YUV
            | ImageColor::IMAGE_COLOR_HSL
            | ImageColor::IMAGE_COLOR_HSV
            | ImageColor::IMAGE_COLOR_CIEXYY
            | ImageColor::IMAGE_COLOR_HCY => 3,
            _ => 4,
        }
    }
}

/// Colour model of an image.
#[derive(Clone, Copy, Debug, PartialEq, Eq, Structural)]
pub enum Color {
    Unknown,
    Gray,
    GrayA,
    RGB,
    RGBA,
    CMYK,
    CMYKA,
    YCBCR,
    YCBCRA,
    CIELAB,
    CIELABA,
    CIELCH,
    CIELCHA,
    CIEXYZ,
    CIEXYZA,
    YUV,
    YUVA,
    HSL,
    HSLA,
    HSV,
    HSVA,
    CIEXYY,
    CIEXYYA,
    HCY,
    HCYA,
}

impl Color {
    /// The store's name for this colour model.
    pub open spec fn spec_ffi(self) -> ImageColor {
        match self {
            Color::Unknown => ImageColor::IMAGE_COLOR_UNKNOWN,
            Color::Gray => ImageColor::IMAGE_COLOR_GRAY,
            Color::GrayA => ImageColor::IMAGE_COLOR_GRAYA,
            Color::RGB => ImageColor::IMAGE_COLOR_RGB,
            Color::RGBA => ImageColor::IMAGE_COLOR_RGBA,
            Color::CMYK => ImageColor::IMAGE_COLOR_CMYK,
            Color::CMYKA => ImageColor::IMAGE_COLOR_CMYKA,
            Color::YCBCR => ImageColor::IMAGE_COLOR_YCBCR,
            Color::YCBCRA => ImageColor::IMAGE_COLOR_YCBCRA,
            Color::CIELAB => ImageColor::IMAGE_COLOR_CIELAB,
            Color::CIELABA => ImageColor::IMAGE_COLOR_CIELABA,
            Color::CIELCH => ImageColor::IMAGE_COLOR_CIELCH,
            Color::CIELCHA => ImageColor::IMAGE_COLOR_CIELCHA,
            Color::CIEXYZ => ImageColor::IMAGE_COLOR_CIEXYZ,
            Color::CIEXYZA => ImageColor::IMAGE_COLOR_CIEXYZA,
            Color::YUV => ImageColor::IMAGE_COLOR_YUV,
            Color::YUVA => ImageColor::IMAGE_COLOR_YUVA,
            Color::HSL => ImageColor::IMAGE_COLOR_HSL,
            Color::HSLA => ImageColor::IMAGE_COLOR_HSLA,
            Color::HSV => ImageColor::IMAGE_COLOR_HSV,
            Color::HSVA => ImageColor::IMAGE_COLOR_HSVA,
            Color::CIEXYY => ImageColor::IMAGE_COLOR_CIEXYY,
            Color::CIEXYYA => ImageColor::IMAGE_COLOR_CIEXYYA,
            Color::HCY => ImageColor::IMAGE_COLOR_HCY,
            Color::HCYA => ImageColor::IMAGE_COLOR_HCYA,
        }
    }

    /// The store's name for this colour model. The two enumerations are
    /// matched variant by variant, so neither depends on how the other is
    /// numbered.
    pub fn ffi(&self) -> (c: ImageColor)
        ensures
            c == self.spec_ffi(),
            c.spec_color() == *self,
    {
        match self {
            Color::Unknown => ImageColor::IMAGE_COLOR_UNKNOWN,
            Color::Gray => ImageColor::IMAGE_COLOR_GRAY,
            Color::GrayA => ImageColor::IMAGE_COLOR_GRAYA,
            Color::RGB => ImageColor::IMAGE_COLOR_RGB,
            Color::RGBA => ImageColor::IMAGE_COLOR_RGBA,
            Color::CMYK => ImageColor::IMAGE_COLOR_CMYK,
            Color::CMYKA => ImageColor::IMAGE_COLOR_CMYKA,
            Color::YCBCR => ImageColor::IMAGE_COLOR_YCBCR,
            Color::YCBCRA => ImageColor::IMAGE_COLOR_YCBCRA,
            Color::CIELAB => ImageColor::IMAGE_COLOR_CIELAB,
            Color::CIELABA => ImageColor::IMAGE_COLOR_CIELABA,
            Color::CIELCH => ImageColor::IMAGE_COLOR_CIELCH,
            Color::CIELCHA => ImageColor::IMAGE_COLOR_CIELCHA,
            Color::CIEXYZ => ImageColor::IMAGE_COLOR_CIEXYZ,
            Color::CIEXYZA => ImageColor::IMAGE_COLOR_CIEXYZA,
            Color::YUV => ImageColor::IMAGE_COLOR_YUV,
            Color::YUVA => ImageColor::IMAGE_COLOR_YUVA,
            Color::HSL => ImageColor::IMAGE_COLOR_HSL,
            Color::HSLA => ImageColor::IMAGE_COLOR_HSLA,
            Color::HSV => ImageColor::IMAGE_COLOR_HSV,
            Color::HSVA => ImageColor::IMAGE_COLOR_HSVA,
            Color::CIEXYY => ImageColor::IMAGE_COLOR_CIEXYY,
            Color::CIEXYYA => ImageColor::IMAGE_COLOR_CIEXYYA,
            Color::HCY => ImageColor::IMAGE_COLOR_HCY,
            Color::HCYA => ImageColor::IMAGE_COLOR_HCYA,
        }
    }

    /// Get the number of channels.
    pub fn channels(&self) -> (n: usize)
        ensures
            n == self.spec_ffi().spec_channels(),
    {
        self.ffi().channels()
    }
}

impl ImageColor {
    /// The colour model that the store records under this name.
    pub open spec fn spec_color(self) -> Color {
        match self {
            ImageColor::IMAGE_COLOR_UNKNOWN => Color::Unknown,
            ImageColor::IMAGE_COLOR_GRAY => Color::Gray,
            ImageColor::IMAGE_COLOR_GRAYA => Color::GrayA,
            ImageColor::IMAGE_COLOR_RGB => Color::RGB,
            ImageColor::IMAGE_COLOR_RGBA => Color::RGBA,
            ImageColor::IMAGE_COLOR_CMYK => Color::CMYK,
            ImageColor::IMAGE_COLOR_CMYKA => Color::CMYKA,
            ImageColor::IMAGE_COLOR_YCBCR => Color::YCBCR,
            ImageColor::IMAGE_COLOR_YCBCRA => Color::YCBCRA,
            ImageColor::IMAGE_COLOR_CIELAB => Color::CIELAB,
            ImageColor::IMAGE_COLOR_CIELABA => Color::CIELABA,
            ImageColor::IMAGE_COLOR_CIELCH => Color::CIELCH,
            ImageColor::IMAGE_COLOR_CIELCHA => Color::CIELCHA,
            ImageColor::IMAGE_COLOR_CIEXYZ => Color::CIEXYZ,
            ImageColor::IMAGE_COLOR_CIEXYZA => Color::CIEXYZA,
            ImageColor::IMAGE_COLOR_YUV => Color::YUV,
            ImageColor::IMAGE_COLOR_YUVA => Color::YUVA,
            ImageColor::IMAGE_COLOR_HSL => Color::HSL,
            ImageColor::IMAGE_COLOR_HSLA => Color::HSLA,
            ImageColor::IMAGE_COLOR_HSV => Color::HSV,
            ImageColor::IMAGE_COLOR_HSVA => Color::HSVA,
            ImageColor::IMAGE_COLOR_CIEXYY => Color::CIEXYY,
            ImageColor::IMAGE_COLOR_CIEXYYA => Color::CIEXYYA,
            ImageColor::IMAGE_COLOR_HCY => Color::HCY,
            ImageColor::IMAGE_COLOR_HCYA => Color::HCYA,
        }
    }

    /// The colour model that the store records under this name.
    pub fn color(self) -> (c: Color)
        ensures
            c == self.spec_color(),
            c.spec_ffi() == self,
    {
        match self {
            ImageColor::IMAGE_COLOR_UNKNOWN => Color::Unknown,
            ImageColor::IMAGE_COLOR_GRAY => Color::Gray,
            ImageColor::IMAGE_COLOR_GRAYA => Color::GrayA,
            ImageColor::IMAGE_COLOR_RGB => Color::RGB,
            ImageColor::IMAGE_COLOR_RGBA => Color::RGBA,
            ImageColor::IMAGE_COLOR_CMYK => Color::CMYK,
            ImageColor::IMAGE_COLOR_CMYKA => Color::CMYKA,
            ImageColor::IMAGE_COLOR_YCBCR => Color::YCBCR,
            ImageColor::IMAGE_COLOR_YCBCRA => Color::YCBCRA,
            ImageColor::IMAGE_COLOR_CIELAB => Color::CIELAB,
            ImageColor::IMAGE_COLOR_CIELABA => Color::CIELABA,
            ImageColor::IMAGE_COLOR_CIELCH => Color::CIELCH,
            ImageColor::IMAGE_COLOR_CIELCHA => Color::CIELCHA,
            ImageColor::IMAGE_COLOR_CIEXYZ => Color::CIEXYZ,
            ImageColor::IMAGE_COLOR_CIEXYZA => Color::CIEXYZA,
            ImageColor::IMAGE_COLOR_YUV => Color::YUV,
            ImageColor::IMAGE_COLOR_YUVA => Color::YUVA,
            ImageColor::IMAGE_COLOR_HSL => Color::HSL,
            ImageColor::IMAGE_COLOR_HSLA => Color::HSLA,
            ImageColor::IMAGE_COLOR_HSV => Color::HSV,
            ImageColor::IMAGE_COLOR_HSVA => Color::HSVA,
            ImageColor::IMAGE_COLOR_CIEXYY => Color::CIEXYY,
            ImageColor::IMAGE_COLOR_CIEXYYA => Color::CIEXYYA,
            ImageColor::IMAGE_COLOR_HCY => Color::HCY,
            ImageColor::IMAGE_COLOR_HCYA => Color::HCYA,
        }
    }
}

/// Type defines an image's underlying data type.
/// For example, `Type::U(16)` is an unsigned 16-bit sample and `Type::F(32)`
/// a 32-bit float.
#[derive(Clone, Copy, Debug, PartialEq, Eq, Structural)]
pub enum Type {
    I(u8),
    U(u8),
    F(u8),
}

impl Type {
    /// Kind and bits of the type.
    pub open spec fn spec_info(self) -> (ImageKind, u8) {
        match self {
            Type::I(x) => (ImageKind::IMAGE_KIND_INT, x),
            Type::U(x) => (ImageKind::IMAGE_KIND_UINT, x),
            Type::F(x) => (ImageKind::IMAGE_KIND_FLOAT, x),
        }
    }

    /// The type with the given kind and bits.
    pub open spec fn spec_of(kind: ImageKind, bits: u8) -> Type {
        match kind {
            ImageKind::IMAGE_KIND_INT => Type::I(bits),
            ImageKind::IMAGE_KIND_UINT => Type::U(bits),
            ImageKind::IMAGE_KIND_FLOAT => Type::F(bits),
        }
    }

    /// Get kind and bits.
    pub fn info(&self) -> (r: (ImageKind, u8))
        ensures
            r == self.spec_info(),
            Type::spec_of(r.0, r.1) == *self,
    {
        match self {
            Type::I(x) => (ImageKind::IMAGE_KIND_INT, *x),
            Type::U(x) => (ImageKind::IMAGE_KIND_UINT, *x),
            Type::F(x) => (ImageKind::IMAGE_KIND_FLOAT, *x),
        }
    }
}

/// Whether samples of the given kind exist with the given number of bits:
/// integers have 8, 16 or 32 bits, floats have 32.
pub open spec fn valid_type(kind: ImageKind, bits: u8) -> bool {
    match kind {
        ImageKind::IMAGE_KIND_INT | ImageKind::IMAGE_KIND_UINT => bits == 8 || bits == 16
            || bits == 32,
        ImageKind::IMAGE_KIND_FLOAT => bits == 32,
    }
}

/// Returns true if the kind and bits make a valid image type.
pub fn is_valid_type(kind: ImageKind, bits: u8) -> (b: bool)
    ensures
        b == valid_type(kind, bits),
{
    match kind {
        ImageKind::IMAGE_KIND_FLOAT => bits == 32,
        _ => bits == 8 || bits == 16 || bits == 32,
    }
}

/// ImageMeta is used to store image metadata with information about the image
/// shape and type.
#[derive(Clone, Copy, Debug, PartialEq, Eq, Structural)]
pub struct ImageMeta {
    pub width: u64,
    pub height: u64,
    pub color: ImageColor,
    pub kind: ImageKind,
    pub bits: u8,
}

pub type Meta = ImageMeta;

impl ImageMeta {
    /// The kind and bits make a valid image type.
    pub open spec fn valid(self) -> bool {
        valid_type(self.kind, self.bits)
    }

    /// The number of samples of one pixel.
    pub open spec fn spec_channels(self) -> nat {
        self.color.spec_channels()
    }

    /// The number of bytes of one sample.
    pub open spec fn spec_elem_size(self) -> nat {
        (self.bits / 8) as nat
    }

    /// The number of bytes of one pixel.
    pub open spec fn spec_pixel_bytes(self) -> nat {
        self.spec_channels() * self.spec_elem_size()
    }

    /// The number of bytes of one row of pixels.
    pub open spec fn spec_row_bytes(self) -> nat {
        self.width as nat * self.spec_pixel_bytes()
    }

    /// The number of bytes of the whole image: width by height by channels
    /// by bytes per sample.
    pub open spec fn spec_total_bytes(self) -> nat {
        self.width as nat * self.height as nat * self.spec_channels() * self.spec_elem_size()
    }

    /// Create a new Meta instance.
    pub fn new(w: usize, h: usize, color: Color, ty: Type) -> (meta: Meta)
        ensures
            meta.width == w,
            meta.height == h,
            meta.color == color.spec_ffi(),
            (meta.kind, meta.bits) == ty.spec_info(),
    {
        let (kind, bits) = ty.info();
        ImageMeta { width: w as u64, height: h as u64, color: color.ffi(), kind, bits }
    }

    /// The width in pixels. A width beyond the range of `usize` is cut down
    /// to its low bits, as `as` does.
    pub fn width(&self) -> (w: usize)
        ensures
            w == self.width as usize,
            self.width <= usize::MAX ==> w == self.width,
    {
        #[verifier::truncate]
        (self.width as usize)
    }

    /// The height in pixels. A height beyond the range of `usize` is cut
    /// down to its low bits, as `as` does.
    pub fn height(&self) -> (h: usize)
        ensures
            h == self.height as usize,
            self.height <= usize::MAX ==> h == self.height,
    {
        #[verifier::truncate]
        (self.height as usize)
    }

    /// Create a new Meta instance from an existing one with the color changed.
    pub fn with_color(&self, color: Color) -> (meta: Meta)
        ensures
            meta == (ImageMeta { color: color.spec_ffi(), ..*self }),
    {
        ImageMeta {
            width: self.width,
            height: self.height,
            color: color.ffi(),
            kind: self.kind,
            bits: self.bits,
        }
    }

    /// Create a new Meta instance from an existing one with the type changed.
    pub fn with_type(&self, t: Type) -> (meta: Meta)
        ensures
            meta == (ImageMeta { kind: t.spec_info().0, bits: t.spec_info().1, ..*self }),
    {
        let info = t.info();
        ImageMeta {
            width: self.width,
            height: self.height,
            color: self.color,
            kind: info.0,
            bits: info.1,
        }
    }

    /// Get the underlying data type.
    pub fn get_type(&self) -> (t: Type)
        ensures
            t == Type::spec_of(self.kind, self.bits),
            t.spec_info() == (self.kind, self.bits),
    {
        match self.kind {
            ImageKind::IMAGE_KIND_INT => Type::I(self.bits),
            ImageKind::IMAGE_KIND_UINT => Type::U(self.bits),
            ImageKind::IMAGE_KIND_FLOAT => Type::F(self.bits),
        }
    }

    /// Get image colorspace.
    pub fn get_color(&self) -> (c: Color)
        ensures
            c == self.color.spec_color(),
            c.spec_ffi() == self.color,
    {
        self.color.color()
    }

    /// Whether the kind and bits make a valid image type.
    pub fn is_valid(&self) -> (b: bool)
        ensures
            b == self.valid(),
    {
        is_valid_type(self.kind, self.bits)
    }

    /// Get the number of channels.
    pub fn channels(&self) -> (n: usize)
        ensures
            n == self.spec_channels(),
            n <= 5,
    {
        self.color.channels()
    }

    /// The number of bytes of one sample.
    pub fn elem_size(&self) -> (n: usize)
        ensures
            n == self.spec_elem_size(),
            n <= 31,
    {
        (self.bits / 8) as usize
    }

    /// The number of bytes of one pixel.
    pub fn pixel_bytes(&self) -> (n: usize)
        ensures
            n == self.spec_pixel_bytes(),
            n <= 155,
    {
        let c = self.channels();
        let e = self.elem_size();
        assert(c * e <= 155) by (nonlinear_arith)
            requires
                c <= 5,
                e <= 31,
        ;
        c * e
    }

    /// The total number of bytes of the image data, if a `usize` can hold
    /// it.
    pub fn checked_total_bytes(&self) -> (n: Option<usize>)
        ensures
            match n {
                Some(n) => n == self.spec_total_bytes(),
                None => self.spec_total_bytes() > usize::MAX,
            },
    {
        let pb = self.pixel_bytes();
        proof {
            lemma_total_bytes_by_pixels(*self);
        }
        if pb == 0 || self.width == 0 || self.height == 0 {
            assert(self.width as nat * self.height as nat * pb as nat == 0) by (nonlinear_arith)
                requires
                    pb == 0 || self.width == 0 || self.height == 0,
            ;
            return Some(0);
        }
        let ghost w = self.width as nat;
        let ghost h = self.height as nat;
        let ghost p = pb as nat;
        match self.width.checked_mul(self.height) {
            None => {
                assert(w * h * p >= w * h) by (nonlinear_arith)
                    requires
                        p >= 1,
                ;
                None
            },
            Some(wh) => match wh.checked_mul(pb as u64) {
                None => None,
                Some(total) => {
                    if total > usize::MAX as u64 {
                        None
                    } else {
                        Some(total as usize)
                    }
                },
            },
        }
    }

    /// Get total number of bytes occupied by the image data.
    pub fn total_bytes(&self) -> (n: usize)
        requires
            self.spec_total_bytes() <= usize::MAX,
        ensures
            n == self.spec_total_bytes(),
            n == self.width * self.height * self.spec_channels() * (self.bits / 8),
    {
        match self.checked_total_bytes() {
            Some(n) => n,
            None => 0,
        }
    }
}

/// Size invariant: a sample of a valid type has one, two or four bytes, and
/// the data of an image has as many bytes as the width, the height, the
/// number of channels and the bytes of a sample multiply to.
pub proof fn lemma_size_invariant(meta: ImageMeta)
    requires
        meta.valid(),
    ensures
        meta.spec_elem_size() == 1 || meta.spec_elem_size() == 2 || meta.spec_elem_size() == 4,
        meta.kind == ImageKind::IMAGE_KIND_FLOAT ==> meta.spec_elem_size() == 4,
        meta.spec_total_bytes() == meta.width * meta.height * meta.spec_channels() * (meta.bits
            / 8),
{
}

/// The size of an image is the number of its pixels times the size of one.
pub proof fn lemma_total_bytes_by_pixels(meta: ImageMeta)
    ensures
        meta.spec_total_bytes() == meta.width as nat * meta.height as nat
            * meta.spec_pixel_bytes(),
        meta.spec_total_bytes() == meta.height as nat * meta.spec_row_bytes(),
{
    let w = meta.width as nat;
    let h = meta.height as nat;
    let c = meta.spec_channels();
    let e = meta.spec_elem_size();
    assert(w * h * c * e == w * h * (c * e)) by (nonlinear_arith);
    assert(w * h * c * e == h * (w * (c * e))) by (nonlinear_arith);
}

} // verus!
