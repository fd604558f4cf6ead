use imaged::bytes::{read_le, to_le, write_le};
use imaged::header::{decode_header, encode_header, HEADER_SIZE};
use imaged::meta::is_valid_type;
use imaged::{Color, ImageColor, ImageKind, Meta, Type};

const COLORS: [Color; 25] = [
    Color::Unknown,
    Color::Gray,
    Color::GrayA,
    Color::RGB,
    Color::RGBA,
    Color::CMYK,
    Color::CMYKA,
    Color::YCBCR,
    Color::YCBCRA,
    Color::CIELAB,
    Color::CIELABA,
    Color::CIELCH,
    Color::CIELCHA,
    Color::CIEXYZ,
    Color::CIEXYZA,
    Color::YUV,
    Color::YUVA,
    Color::HSL,
    Color::HSLA,
    Color::HSV,
    Color::HSVA,
    Color::CIEXYY,
    Color::CIEXYYA,
    Color::HCY,
    Color::HCYA,
];

#[test]
fn channels_follow_the_table() {
    let expected: [usize; 25] =
        [0, 1, 2, 3, 4, 4, 5, 3, 4, 3, 4, 3, 4, 3, 4, 3, 4, 3, 4, 3, 4, 3, 4, 3, 4];
    for (color, n) in COLORS.iter().zip(expected.iter()) {
        assert_eq!(color.channels(), *n, "{:?}", color);
        assert_eq!(color.ffi().channels(), *n);
    }
}

#[test]
fn color_codes_count_up_and_map_back() {
    for (i, color) in COLORS.iter().enumerate() {
        let ffi = color.ffi();
        assert_eq!(ffi.code(), i as u32);
        assert_eq!(ImageColor::from_code(i as u32), Some(ffi));
        assert_eq!(ffi.color(), *color);
    }
    assert_eq!(ImageColor::from_code(25), None);
    assert_eq!(ImageKind::from_code(0), Some(ImageKind::IMAGE_KIND_INT));
    assert_eq!(ImageKind::from_code(1), Some(ImageKind::IMAGE_KIND_UINT));
    assert_eq!(ImageKind::from_code(2), Some(ImageKind::IMAGE_KIND_FLOAT));
    assert_eq!(ImageKind::from_code(3), None);
    assert_eq!(ImageKind::IMAGE_KIND_FLOAT.code(), 2);
}

#[test]
fn type_info_and_back() {
    assert_eq!(Type::I(8).info(), (ImageKind::IMAGE_KIND_INT, 8));
    assert_eq!(Type::U(16).info(), (ImageKind::IMAGE_KIND_UINT, 16));
    assert_eq!(Type::F(32).info(), (ImageKind::IMAGE_KIND_FLOAT, 32));
    let meta = Meta::new(3, 2, Color::HSV, Type::U(16));
    assert_eq!(meta.get_type(), Type::U(16));
    assert_eq!(meta.get_color(), Color::HSV);
}

#[test]
fn valid_types_are_the_seven() {
    for bits in 0..=255u8 {
        let int = bits == 8 || bits == 16 || bits == 32;
        assert_eq!(is_valid_type(ImageKind::IMAGE_KIND_INT, bits), int);
        assert_eq!(is_valid_type(ImageKind::IMAGE_KIND_UINT, bits), int);
        assert_eq!(is_valid_type(ImageKind::IMAGE_KIND_FLOAT, bits), bits == 32);
    }
    assert!(Meta::new(1, 1, Color::RGB, Type::F(32)).is_valid());
    assert!(!Meta::new(1, 1, Color::RGB, Type::F(16)).is_valid());
    assert!(!Meta::new(1, 1, Color::RGB, Type::U(64)).is_valid());
}

#[test]
fn total_bytes_is_the_product() {
    let types = [
        Type::I(8),
        Type::I(16),
        Type::I(32),
        Type::U(8),
        Type::U(16),
        Type::U(32),
        Type::F(32),
    ];
    for color in COLORS.iter() {
        for ty in types.iter() {
            let meta = Meta::new(7, 5, *color, *ty);
            let bits = ty.info().1 as usize;
            assert_eq!(meta.total_bytes(), 7 * 5 * color.channels() * (bits / 8));
            assert_eq!(meta.checked_total_bytes(), Some(meta.total_bytes()));
        }
    }
    assert_eq!(Meta::new(800, 600, Color::RGB, Type::F(32)).total_bytes(), 5_760_000);
    assert_eq!(Meta::new(1, 1, Color::CMYKA, Type::U(16)).total_bytes(), 10);
    assert_eq!(Meta::new(0, 9, Color::RGB, Type::U(8)).total_bytes(), 0);
}

#[test]
fn total_bytes_beyond_usize_is_none() {
    let meta = Meta::new(usize::MAX, usize::MAX, Color::RGBA, Type::U(32));
    assert_eq!(meta.checked_total_bytes(), None);
    assert!(!meta.fits());
    let flat = Meta::new(usize::MAX, usize::MAX, Color::Unknown, Type::U(32));
    assert_eq!(flat.checked_total_bytes(), Some(0));
    let wide = Meta::new(usize::MAX / 2, 2, Color::Gray, Type::U(8));
    assert_eq!(wide.checked_total_bytes(), Some(usize::MAX - 1));
    assert!(!wide.fits());
}

#[test]
fn derived_metas_leave_the_source_alone() {
    let meta = Meta::new(4, 3, Color::RGB, Type::U(8));
    let gray = meta.with_color(Color::Gray);
    let float = meta.with_type(Type::F(32));
    assert_eq!(meta, Meta::new(4, 3, Color::RGB, Type::U(8)));
    assert_eq!(gray, Meta::new(4, 3, Color::Gray, Type::U(8)));
    assert_eq!(float, Meta::new(4, 3, Color::RGB, Type::F(32)));
    assert_eq!(meta.width(), 4);
    assert_eq!(meta.height(), 3);
    assert_eq!(meta.channels(), 3);
    assert_eq!(meta.elem_size(), 1);
    assert_eq!(float.pixel_bytes(), 12);
}

#[test]
fn little_endian_numbers() {
    assert_eq!(to_le(0x0102_0304, 4), vec![4u8, 3, 2, 1]);
    assert_eq!(to_le(0x0102_0304, 2), vec![4u8, 3]);
    assert_eq!(to_le(0xff, 0), Vec::<u8>::new());
    assert_eq!(to_le(u64::MAX, 8), vec![0xffu8; 8]);
    let bytes = [9u8, 0x34, 0x12, 0xff, 7];
    assert_eq!(read_le(&bytes, 1, 2), 0x1234);
    assert_eq!(read_le(&bytes, 0, 0), 0);
    assert_eq!(read_le(&bytes, 1, 4), 0x07ff_1234);
    let mut out = vec![1u8, 2, 3, 4, 5];
    write_le(&mut out, 1, 3, 0xaabb_ccdd);
    assert_eq!(out, vec![1u8, 0xdd, 0xcc, 0xbb, 5]);
}

#[test]
fn header_round_trip() {
    for color in COLORS.iter() {
        let meta = Meta::new(0x1122_3344, 77, *color, Type::I(16));
        let header = encode_header(&meta);
        assert_eq!(header.len(), HEADER_SIZE);
        assert_eq!(&header[28..32], b"imgd");
        assert_eq!(decode_header(&header), Some(meta));
    }
}

#[test]
fn header_is_rejected_when_malformed() {
    let header = encode_header(&Meta::new(2, 2, Color::RGB, Type::U(8)));
    assert_eq!(decode_header(&header[..31]), None);
    let mut magic = header.clone();
    magic[31] = b'x';
    assert_eq!(decode_header(&magic), None);
    let mut padding = header.clone();
    padding[18] = 1;
    assert_eq!(decode_header(&padding), None);
    let mut kind = header.clone();
    kind[20] = 3;
    assert_eq!(decode_header(&kind), None);
    let mut color = header.clone();
    color[25] = 1;
    assert_eq!(decode_header(&color), None);
    let mut longer = header.clone();
    longer.extend_from_slice(&[1, 2, 3]);
    assert_eq!(decode_header(&longer), Some(Meta::new(2, 2, Color::RGB, Type::U(8))));
}
