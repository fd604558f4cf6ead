use imaged::image::is_valid_file;
use imaged::{halide_buffer, Color, Error, Image, ImageKind, Meta, Ownership, Pixel, Type};

#[test]
fn new_image_is_zeroed_and_owned() {
    let image = Image::new(Meta::new(3, 2, Color::RGB, Type::U(16))).unwrap();
    assert_eq!(image.buffer().unwrap(), &[0u8; 36][..]);
    assert_eq!(image.ownership(), Ownership::Owned);
    assert_eq!(image.shape(), (3, 2, 3));
    assert_eq!(image.elem_size(), 2);
    assert_eq!(image.get_type(), Type::U(16));
    assert_eq!(image.get_color(), Color::RGB);
}

#[test]
fn new_image_of_invalid_type_is_a_null_pointer() {
    let r = Image::new(Meta::new(3, 2, Color::RGB, Type::F(16)));
    assert!(matches!(r, Err(Error::NullPointer)));
    let r = Image::new(Meta::new(usize::MAX, 2, Color::RGB, Type::U(8)));
    assert!(matches!(r, Err(Error::NullPointer)));
    let image = Image::new(Meta::new(1, 1, Color::Gray, Type::U(8))).unwrap();
    assert!(matches!(image.new_like_with_type(Type::I(7)), Err(Error::NullPointer)));
    let like = image.new_like_with_color(Color::RGBA).unwrap();
    assert_eq!(like.buffer().unwrap().len(), 4);
    let like = image.new_like_with_type(Type::F(32)).unwrap();
    assert_eq!(like.buffer().unwrap().len(), 4);
}

#[test]
fn new_with_data_wants_the_right_size() {
    let meta = Meta::new(2, 1, Color::GrayA, Type::U(8));
    let image = Image::new_with_data(meta, vec![1, 2, 3, 4]).unwrap();
    assert_eq!(image.buffer().unwrap(), &[1u8, 2, 3, 4][..]);
    let r = Image::new_with_data(meta, vec![1, 2, 3]);
    assert!(matches!(r, Err(Error::IncorrectImageType)));
    let r = Image::new_with_data(meta.with_type(Type::U(9)), vec![1, 2, 3, 4]);
    assert!(matches!(r, Err(Error::NullPointer)));
}

#[test]
fn typed_data_reads_little_endian() {
    let meta = Meta::new(2, 1, Color::Gray, Type::I(16));
    let image = Image::new_with_data(meta, vec![0x34, 0x12, 0xfe, 0xff]).unwrap();
    assert_eq!(image.data::<u16>().unwrap(), vec![0x1234u16, 0xfffe]);
    assert_eq!(image.data::<i16>().unwrap(), vec![0x1234i16, -2]);
    assert!(matches!(image.data::<u8>(), Err(Error::IncorrectImageType)));
    assert!(matches!(image.data::<i32>(), Err(Error::IncorrectImageType)));
    assert!(image.is_type::<u16>());
    assert!(image.is_type::<i16>());
    assert!(!image.is_type::<u32>());
}

#[test]
fn typed_data_round_trip() {
    let meta = Meta::new(2, 2, Color::Gray, Type::I(32));
    let mut image = Image::new(meta).unwrap();
    let samples = [i32::MIN, -1, 0, i32::MAX];
    image.data_mut::<i32>(&samples).unwrap();
    assert_eq!(image.data::<i32>().unwrap(), samples.to_vec());
    assert_eq!(
        image.buffer().unwrap(),
        &[0u8, 0, 0, 0x80, 0xff, 0xff, 0xff, 0xff, 0, 0, 0, 0, 0xff, 0xff, 0xff, 0x7f][..]
    );
    assert!(matches!(image.data_mut::<i32>(&samples[..3]), Err(Error::IncorrectImageType)));
    assert!(matches!(image.data_mut::<i16>(&[1, 2, 3, 4]), Err(Error::IncorrectImageType)));
    let mut bytes = Image::new(Meta::new(3, 1, Color::Gray, Type::I(8))).unwrap();
    bytes.data_mut::<i8>(&[-128, -1, 127]).unwrap();
    assert_eq!(bytes.buffer().unwrap(), &[0x80u8, 0xff, 0x7f][..]);
    assert_eq!(bytes.data::<u8>().unwrap(), vec![0x80u8, 0xff, 0x7f]);
}

#[test]
fn at_reads_one_pixel() {
    let meta = Meta::new(2, 2, Color::RGB, Type::U(8));
    let data: Vec<u8> = (1..=12).collect();
    let mut image = Image::new_with_data(meta, data).unwrap();
    assert_eq!(image.at::<u8>(0, 0).unwrap(), vec![1u8, 2, 3]);
    assert_eq!(image.at::<u8>(1, 0).unwrap(), vec![4u8, 5, 6]);
    assert_eq!(image.at::<u8>(0, 1).unwrap(), vec![7u8, 8, 9]);
    assert_eq!(image.at::<u8>(1, 1).unwrap(), vec![10u8, 11, 12]);
    assert!(matches!(image.at::<u8>(2, 0), Err(Error::OutOfBounds)));
    assert!(matches!(image.at::<u8>(0, 2), Err(Error::OutOfBounds)));
    assert!(matches!(image.at::<u16>(0, 0), Err(Error::IncorrectImageType)));
    assert!(matches!(image.at::<u16>(9, 9), Err(Error::IncorrectImageType)));
    image.set_at::<u8>(1, 0, &[40, 50, 60]).unwrap();
    assert_eq!(image.buffer().unwrap(), &[1u8, 2, 3, 40, 50, 60, 7, 8, 9, 10, 11, 12][..]);
    assert!(matches!(image.set_at::<u8>(1, 0, &[40, 50]), Err(Error::IncorrectImageType)));
    assert!(matches!(image.set_at::<u8>(1, 2, &[40, 50, 60]), Err(Error::OutOfBounds)));
}

#[test]
fn pixel_constructors_pack_channels() {
    assert_eq!(Pixel::empty().data(), [0, 0, 0, 0]);
    assert_eq!(Pixel::default().data(), [0, 0, 0, 0]);
    assert_eq!(Pixel::gray(7).data(), [7, 0, 0, 0]);
    assert_eq!(Pixel::new3(1, 2, 3).data(), [1, 2, 3, 0]);
    assert_eq!(Pixel::new(1, 2, 3, 4).data(), [1, 2, 3, 4]);
    let mut px = Pixel::empty();
    px.data_mut()[2] = 9;
    assert_eq!(px.data(), [0, 0, 9, 0]);
}

#[test]
fn get_and_set_pixel() {
    let meta = Meta::new(2, 1, Color::GrayA, Type::U(16));
    let mut image = Image::new_with_data(meta, vec![1, 2, 3, 4, 5, 6, 7, 8]).unwrap();
    let mut px = Pixel::new(9, 9, 9, 9);
    assert!(image.get_pixel(1, 0, &mut px));
    assert_eq!(px.data(), [0x0605, 0x0807, 0, 0]);
    assert!(!image.get_pixel(2, 0, &mut px));
    assert!(!image.get_pixel(0, 1, &mut px));
    assert_eq!(px.data(), [0x0605, 0x0807, 0, 0]);
    assert!(image.set_pixel(0, 0, &Pixel::new(0x1_aabb, 0xccdd, 0xee, 0xff)));
    assert_eq!(image.buffer().unwrap(), &[0xbbu8, 0xaa, 0xdd, 0xcc, 5, 6, 7, 8][..]);
    assert!(!image.set_pixel(2, 0, &Pixel::empty()));
    assert_eq!(image.buffer().unwrap(), &[0xbbu8, 0xaa, 0xdd, 0xcc, 5, 6, 7, 8][..]);
}

#[test]
fn fifth_channel_is_left_alone() {
    let meta = Meta::new(1, 1, Color::CMYKA, Type::U(8));
    let mut image = Image::new_with_data(meta, vec![1, 2, 3, 4, 5]).unwrap();
    let mut px = Pixel::empty();
    assert!(image.get_pixel(0, 0, &mut px));
    assert_eq!(px.data(), [1, 2, 3, 4]);
    assert!(image.set_pixel(0, 0, &Pixel::new(10, 20, 30, 40)));
    assert_eq!(image.buffer().unwrap(), &[10u8, 20, 30, 40, 5][..]);
}

#[test]
fn float_pixels_keep_their_bits() {
    let meta = Meta::new(1, 1, Color::RGBA, Type::F(32));
    let mut image = Image::new(meta).unwrap();
    let px = Pixel::new(1.0f32.to_bits(), 0.5f32.to_bits(), (-2.0f32).to_bits(), 0.25f32.to_bits());
    assert!(image.set_pixel(0, 0, &px));
    let mut back = Pixel::empty();
    assert!(image.get_pixel(0, 0, &mut back));
    assert_eq!(back, px);
    let floats: Vec<f32> = image.at::<u32>(0, 0).unwrap().iter().map(|w| f32::from_bits(*w)).collect();
    assert_eq!(floats, vec![1.0f32, 0.5, -2.0, 0.25]);
}

#[test]
fn clone_is_a_deep_copy() {
    let meta = Meta::new(2, 1, Color::Gray, Type::U(8));
    let mut image = Image::new_with_data(meta, vec![1, 2]).unwrap();
    let copy = image.clone();
    image.buffer_mut().unwrap()[0] = 9;
    assert_eq!(image.buffer().unwrap(), &[9u8, 2][..]);
    assert_eq!(copy.buffer().unwrap(), &[1u8, 2][..]);
    assert_eq!(*copy.meta(), meta);
    assert_eq!(copy.ownership(), Ownership::Owned);
}

#[test]
fn files_round_trip() {
    let meta = Meta::new(2, 1, Color::RGB, Type::U(8));
    let image = Image::new_with_data(meta, vec![1, 2, 3, 4, 5, 6]).unwrap();
    let file = image.to_file();
    assert_eq!(file.len(), 38);
    assert_eq!(&file[32..], &[1u8, 2, 3, 4, 5, 6][..]);
    assert!(is_valid_file(&file));
    let back = Image::from_file(&file, Ownership::Borrowed).unwrap();
    assert_eq!(*back.meta(), meta);
    assert_eq!(back.buffer().unwrap(), image.buffer().unwrap());
    assert_eq!(back.ownership(), Ownership::Borrowed);
    assert!(!is_valid_file(&file[..37]));
    let mut longer = file.clone();
    longer.push(0);
    assert!(!is_valid_file(&longer));
    assert!(Image::from_file(&longer, Ownership::Borrowed).is_none());
    let mut half = file.clone();
    half[16] = 12;
    assert!(!is_valid_file(&half));
}

#[test]
fn conversions_take_what_the_converter_made() {
    let meta = Meta::new(2, 1, Color::RGB, Type::U(8));
    let mut image = Image::new_with_data(meta, vec![1, 2, 3, 4, 5, 6]).unwrap();
    let gray = image.convert(Color::Gray, Type::U(16), Some(vec![1, 0, 2, 0])).unwrap();
    assert_eq!(*gray.meta(), Meta::new(2, 1, Color::Gray, Type::U(16)));
    assert_eq!(gray.buffer().unwrap(), &[1u8, 0, 2, 0][..]);
    assert_eq!(gray.ownership(), Ownership::Owned);
    assert!(matches!(image.convert(Color::Gray, Type::U(16), None), Err(Error::IncorrectImageType)));
    assert!(matches!(
        image.convert(Color::Gray, Type::U(16), Some(vec![1, 0, 2])),
        Err(Error::IncorrectImageType)
    ));
    assert!(matches!(
        image.convert(Color::Gray, Type::F(16), Some(vec![1, 0, 2, 0])),
        Err(Error::IncorrectImageType)
    ));
    let mut dest = Image::new(Meta::new(2, 1, Color::Gray, Type::U(8))).unwrap();
    image.convert_to(&mut dest, Some(vec![7, 8])).unwrap();
    assert_eq!(dest.buffer().unwrap(), &[7u8, 8][..]);
    assert!(matches!(image.convert_to(&mut dest, Some(vec![7])), Err(Error::IncorrectImageType)));
    assert!(matches!(image.convert_to(&mut dest, None), Err(Error::IncorrectImageType)));
    let mut tall = Image::new(Meta::new(1, 2, Color::Gray, Type::U(8))).unwrap();
    assert!(matches!(image.convert_to(&mut tall, Some(vec![7, 8])), Err(Error::IncorrectImageType)));
    assert_eq!(dest.buffer().unwrap(), &[7u8, 8][..]);
    image.convert_in_place(Color::GrayA, Type::U(8), Some(vec![1, 2, 3, 4])).unwrap();
    assert_eq!(*image.meta(), Meta::new(2, 1, Color::GrayA, Type::U(8)));
    assert_eq!(image.buffer().unwrap(), &[1u8, 2, 3, 4][..]);
    assert!(matches!(
        image.convert_in_place(Color::RGB, Type::U(8), Some(vec![1])),
        Err(Error::IncorrectImageType)
    ));
    assert_eq!(*image.meta(), Meta::new(2, 1, Color::GrayA, Type::U(8)));
}

#[test]
fn resizes_take_what_the_resampling_made() {
    let meta = Meta::new(2, 1, Color::Gray, Type::U(8));
    let image = Image::new_with_data(meta, vec![1, 2]).unwrap();
    let big = image.resize(2, 2, Some(vec![1, 2, 1, 2])).unwrap();
    assert_eq!(*big.meta(), Meta::new(2, 2, Color::Gray, Type::U(8)));
    assert_eq!(big.buffer().unwrap(), &[1u8, 2, 1, 2][..]);
    assert!(matches!(image.resize(2, 2, None), Err(Error::NullPointer)));
    assert!(matches!(image.resize(2, 2, Some(vec![1, 2, 3])), Err(Error::NullPointer)));
    let mut dest = Image::new(Meta::new(1, 1, Color::Gray, Type::U(8))).unwrap();
    image.resize_to(&mut dest, Some(vec![5])).unwrap();
    assert_eq!(dest.buffer().unwrap(), &[5u8][..]);
    assert!(matches!(image.resize_to(&mut dest, Some(vec![5, 6])), Err(Error::NullPointer)));
    let mut other = Image::new(Meta::new(1, 1, Color::Gray, Type::U(16))).unwrap();
    assert!(matches!(image.resize_to(&mut other, Some(vec![5, 6])), Err(Error::NullPointer)));
}

#[test]
fn raw_buffer_describes_the_image() {
    let image = Image::new(Meta::new(4, 3, Color::RGBA, Type::U(16))).unwrap();
    let raw = halide_buffer(&image).unwrap();
    assert_eq!((raw.width, raw.height, raw.channels), (4, 3, 4));
    assert_eq!(raw.kind, ImageKind::IMAGE_KIND_UINT);
    assert_eq!(raw.bits, 16);
    let wide = Image::new(Meta::new(1 << 31, 1, Color::Unknown, Type::U(8))).unwrap();
    assert!(halide_buffer(&wide).is_none());
}

#[test]
fn error_messages() {
    assert_eq!(Error::OutOfBounds.message(), "An image has been accessed beyond the available dimensions");
    assert_eq!(Error::InvalidPath.message(), "An invalid path was encountered");
    assert!(Error::Sys(imaged::ImagedStatus::IMAGED_ERR_LOCKED).is_retryable());
    assert!(!Error::Sys(imaged::ImagedStatus::IMAGED_ERR).is_retryable());
    assert!(!Error::NullPointer.is_retryable());
    assert!(imaged::ImagedStatus::IMAGED_ERR_LOCKED.is_retryable());
    assert!(!imaged::ImagedStatus::IMAGED_OK.is_retryable());
}
