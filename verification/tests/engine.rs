use imaged::{partition_rows, Color, Error, Image, ImagedStatus, Meta, Pixel, Type};
use std::cell::RefCell;

#[test]
fn each_pixel() {
    let mut image = Image::new(Meta::new(800, 600, Color::RGB, Type::F(32))).unwrap();
    let mut image2 = Image::new(Meta::new(800, 600, Color::RGB, Type::F(32))).unwrap();
    image
        .each_pixel(None, |x, y, mut px: Pixel| {
            let data = px.data_mut();
            data[0] = 1.0f32.to_bits();
            data[2] = 0.5f32.to_bits();
            data[3] = 0.25f32.to_bits();
            image2.set_pixel(x, y, &px);
            (px, Ok(true))
        })
        .unwrap();

    for y in 0..600 {
        for x in 0..800 {
            assert!(image.at::<u32>(x, y).unwrap() == image2.at::<u32>(x, y).unwrap());
        }
    }
    assert_eq!(
        image.at::<u32>(799, 599).unwrap(),
        vec![1.0f32.to_bits(), 0, 0.5f32.to_bits()]
    );
}

#[test]
fn bands_share_the_rows() {
    assert_eq!(partition_rows(10, 3), vec![(0, 4), (4, 7), (7, 10)]);
    assert_eq!(partition_rows(10, 1), vec![(0, 10)]);
    assert_eq!(partition_rows(10, 0), vec![(0, 10)]);
    assert_eq!(partition_rows(3, 8), vec![(0, 1), (1, 2), (2, 3)]);
    assert_eq!(partition_rows(0, 4), vec![(0, 0)]);
    assert_eq!(partition_rows(600, 4), vec![(0, 150), (150, 300), (300, 450), (450, 600)]);
    assert_eq!(partition_rows(7, 7).len(), 7);
    assert_eq!(partition_rows(usize::MAX, 2), vec![(0, usize::MAX / 2 + 1), (usize::MAX / 2 + 1, usize::MAX)]);
}

#[test]
fn every_row_is_in_one_band() {
    for height in 0..40usize {
        for threads in 0..12usize {
            let bands = partition_rows(height, threads);
            let mut next = 0;
            for (start, end) in bands.iter() {
                assert_eq!(*start, next);
                assert!(start <= end);
                next = *end;
            }
            assert_eq!(next, height);
        }
    }
}

#[test]
fn each_pixel_visits_every_pixel_once() {
    for threads in [None, Some(0), Some(1), Some(3), Some(64)] {
        let mut image = Image::new(Meta::new(5, 7, Color::Gray, Type::U(8))).unwrap();
        let mut seen = vec![0u32; 35];
        image
            .each_pixel(threads, |x, y, px: Pixel| {
                assert!(x < 5 && y < 7);
                assert_eq!(px.data(), [0, 0, 0, 0]);
                seen[y * 5 + x] += 1;
                (Pixel::gray((y * 5 + x) as u32 + 1), Ok(true))
            })
            .unwrap();
        assert!(seen.iter().all(|n| *n == 1));
        let expected: Vec<u8> = (1..=35).collect();
        assert_eq!(image.buffer().unwrap(), &expected[..]);
    }
}

#[test]
fn each_pixel_goes_row_by_row() {
    let mut image = Image::new(Meta::new(3, 2, Color::Gray, Type::U(8))).unwrap();
    let mut order = Vec::new();
    image
        .each_pixel(Some(2), |x, y, px: Pixel| {
            order.push((x, y));
            (px, Ok(true))
        })
        .unwrap();
    assert_eq!(order, vec![(0, 0), (1, 0), (2, 0), (0, 1), (1, 1), (2, 1)]);
}

#[test]
fn each_pixel_stops_where_the_callback_refuses() {
    let mut image = Image::new(Meta::new(3, 3, Color::Gray, Type::U(8))).unwrap();
    let mut calls = 0;
    let r = image.each_pixel(Some(3), |x, y, _px: Pixel| {
        calls += 1;
        (Pixel::gray(9), Ok(!(x == 1 && y == 1)))
    });
    assert!(matches!(r, Err(Error::Sys(ImagedStatus::IMAGED_ERR))));
    assert_eq!(calls, 5);
    assert_eq!(image.buffer().unwrap(), &[9u8, 9, 9, 9, 0, 0, 0, 0, 0][..]);

    let mut image = Image::new(Meta::new(2, 1, Color::Gray, Type::U(8))).unwrap();
    let r = image.each_pixel(None, |_x, _y, px: Pixel| (px, Err(Error::OutOfBounds)));
    assert!(matches!(r, Err(Error::Sys(ImagedStatus::IMAGED_ERR))));
    assert_eq!(image.buffer().unwrap(), &[0u8, 0][..]);
}

#[test]
fn each_pixel_rows_walks_one_band() {
    let mut image = Image::new(Meta::new(2, 4, Color::Gray, Type::U(8))).unwrap();
    image.each_pixel_rows(1, 3, |_x, _y, _px: Pixel| (Pixel::gray(1), Ok(true))).unwrap();
    assert_eq!(image.buffer().unwrap(), &[0u8, 0, 1, 1, 1, 1, 0, 0][..]);
    image.each_pixel_rows(3, 9, |_x, _y, _px: Pixel| (Pixel::gray(2), Ok(true))).unwrap();
    assert_eq!(image.buffer().unwrap(), &[0u8, 0, 1, 1, 1, 1, 2, 2][..]);
    image.each_pixel_rows(3, 1, |_x, _y, _px: Pixel| (Pixel::gray(3), Ok(true))).unwrap();
    assert_eq!(image.buffer().unwrap(), &[0u8, 0, 1, 1, 1, 1, 2, 2][..]);
    let r = image.each_pixel_rows(0, 1, |_x, _y, px: Pixel| (px, Ok(false)));
    assert!(matches!(r, Err(Error::Sys(ImagedStatus::IMAGED_ERR))));
}

#[test]
fn each_pixel2_writes_the_destination() {
    let src =
        Image::new_with_data(Meta::new(2, 2, Color::GrayA, Type::U(8)), (1..=8).collect()).unwrap();
    let mut dst = Image::new(Meta::new(2, 2, Color::Gray, Type::U(16))).unwrap();
    src.each_pixel2(&mut dst, Some(2), |_x, _y, s: Pixel, d: Pixel| {
        assert_eq!(d.data(), [0, 0, 0, 0]);
        (Pixel::gray(s.data()[0] * 256 + s.data()[1]), Ok(true))
    })
    .unwrap();
    assert_eq!(dst.data::<u16>().unwrap(), vec![0x0102u16, 0x0304, 0x0506, 0x0708]);
    assert_eq!(src.buffer().unwrap(), &[1u8, 2, 3, 4, 5, 6, 7, 8][..]);

    let mut small = Image::new(Meta::new(2, 1, Color::Gray, Type::U(8))).unwrap();
    let r = src.each_pixel2(&mut small, None, |_x, _y, _s: Pixel, d: Pixel| (d, Ok(true)));
    assert!(matches!(r, Err(Error::OutOfBounds)));
    let r = src.each_pixel2(&mut dst, None, |x, _y, _s: Pixel, _d: Pixel| (Pixel::gray(0), Ok(x == 0)));
    assert!(matches!(r, Err(Error::Sys(ImagedStatus::IMAGED_ERR))));
    assert_eq!(dst.data::<u16>().unwrap(), vec![0u16, 0x0304, 0x0506, 0x0708]);
}

#[test]
fn for_each_maps_samples() {
    let mut image =
        Image::new_with_data(Meta::new(2, 2, Color::GrayA, Type::U(8)), (1..=8).collect()).unwrap();
    let places = RefCell::new(Vec::new());
    image
        .for_each::<u8, _>(|(x, y), samples: Vec<u8>| {
            places.borrow_mut().push((x, y));
            vec![samples[1], samples[0]]
        })
        .unwrap();
    assert_eq!(image.buffer().unwrap(), &[2u8, 1, 4, 3, 6, 5, 8, 7][..]);
    assert_eq!(places.into_inner(), vec![(0, 0), (1, 0), (0, 1), (1, 1)]);
    image.for_each::<u8, _>(|_, samples: Vec<u8>| vec![samples[0]]).unwrap();
    assert_eq!(image.buffer().unwrap(), &[2u8, 1, 4, 3, 6, 5, 8, 7][..]);
    let r = image.for_each::<u16, _>(|_, samples: Vec<u16>| samples);
    assert!(matches!(r, Err(Error::IncorrectImageType)));
}

#[test]
fn for_each2_reads_the_other_image() {
    let meta = Meta::new(2, 1, Color::Gray, Type::I(16));
    let mut a = Image::new(meta).unwrap();
    a.data_mut::<i16>(&[10, -20]).unwrap();
    let mut b = Image::new(meta).unwrap();
    b.data_mut::<i16>(&[1, 2]).unwrap();
    a.for_each2::<i16, _>(&b, |_, mine: Vec<i16>, other: Vec<i16>| vec![mine[0] + other[0]]).unwrap();
    assert_eq!(a.data::<i16>().unwrap(), vec![11i16, -18]);
    assert_eq!(b.data::<i16>().unwrap(), vec![1i16, 2]);
    let bytes = Image::new(Meta::new(2, 1, Color::Gray, Type::U(8))).unwrap();
    let r = a.for_each2::<i16, _>(&bytes, |_, mine: Vec<i16>, _other: Vec<i16>| mine);
    assert!(matches!(r, Err(Error::IncorrectImageType)));
    let tall = Image::new(Meta::new(1, 2, Color::Gray, Type::I(16))).unwrap();
    let r = a.for_each2::<i16, _>(&tall, |_, mine: Vec<i16>, _other: Vec<i16>| mine);
    assert!(matches!(r, Err(Error::OutOfBounds)));
}
