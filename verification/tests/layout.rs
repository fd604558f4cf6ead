use imaged::header::{
    encode_header, HEADER_ALIGN, HEADER_SIZE, OFFSET_BITS, OFFSET_COLOR, OFFSET_HEIGHT,
    OFFSET_KIND, OFFSET_WIDTH,
};
use imaged::{Color, Meta, Type};

#[test]
#[allow(non_snake_case)]
fn bindgen_test_layout_ImagedMeta() {
    assert_eq!(HEADER_SIZE, 32usize, "Size of: ImagedMeta");
    assert_eq!(HEADER_ALIGN, 8usize, "Alignment of ImagedMeta");
    assert_eq!(OFFSET_WIDTH, 0usize, "Offset of field: ImagedMeta::width");
    assert_eq!(OFFSET_HEIGHT, 8usize, "Offset of field: ImagedMeta::height");
    assert_eq!(OFFSET_BITS, 16usize, "Offset of field: ImagedMeta::bits");
    assert_eq!(OFFSET_KIND, 20usize, "Offset of field: ImagedMeta::kind");
    assert_eq!(OFFSET_COLOR, 24usize, "Offset of field: ImagedMeta::color");
    let header = encode_header(&Meta::new(0x0102, 0x0304, Color::RGBA, Type::U(16)));
    assert_eq!(header.len(), 32);
    assert_eq!(&header[0..8], &[2u8, 1, 0, 0, 0, 0, 0, 0]);
    assert_eq!(&header[8..16], &[4u8, 3, 0, 0, 0, 0, 0, 0]);
    assert_eq!(header[16], 16);
    assert_eq!(&header[20..24], &[1u8, 0, 0, 0]);
    assert_eq!(&header[24..28], &[4u8, 0, 0, 0]);
}
