use sprite_pipeline::marks::Marks;
use sprite_pipeline::raster::{Image, Pixel};

#[test]
fn from_raw_takes_four_bytes_for_each_pixel() {
    let image = Image::from_raw(2, 1, vec![1, 2, 3, 4, 5, 6, 7, 8]).unwrap();
    assert_eq!(image.width(), 2);
    assert_eq!(image.height(), 1);
    assert_eq!(image.get_pixel(0, 0), Pixel { r: 1, g: 2, b: 3, a: 4 });
    assert_eq!(image.get_pixel(1, 0), Pixel { r: 5, g: 6, b: 7, a: 8 });
}

#[test]
fn from_raw_refuses_short_buffers_and_drops_what_is_left_over() {
    assert!(Image::from_raw(2, 2, vec![0; 15]).is_none());
    assert!(Image::from_raw(u32::MAX, u32::MAX, vec![0; 64]).is_none());
    let image = Image::from_raw(1, 1, vec![9, 8, 7, 6, 5]).unwrap();
    assert_eq!(image.as_raw(), &vec![9, 8, 7, 6]);
    assert_eq!(image.into_raw(), vec![9, 8, 7, 6]);
}

#[test]
fn pixels_are_stored_row_by_row() {
    let mut image = Image::from_raw(3, 2, vec![0; 24]).unwrap();
    image.put_pixel(2, 1, Pixel { r: 10, g: 20, b: 30, a: 40 });
    image.put_pixel(0, 1, Pixel { r: 1, g: 1, b: 1, a: 1 });
    let mut expected = vec![0u8; 24];
    expected[12..16].copy_from_slice(&[1, 1, 1, 1]);
    expected[20..24].copy_from_slice(&[10, 20, 30, 40]);
    assert_eq!(image.as_raw(), &expected);
    assert_eq!(image.get_pixel(2, 1), Pixel { r: 10, g: 20, b: 30, a: 40 });
    assert_eq!(image.get_pixel(1, 1), Pixel { r: 0, g: 0, b: 0, a: 0 });
    assert_eq!(Pixel::transparent(), Pixel { r: 0, g: 0, b: 0, a: 0 });
}

#[test]
fn marks_start_empty_and_keep_what_is_inserted() {
    let image = Image::from_raw(4, 3, vec![0; 48]).unwrap();
    let mut marks = Marks::for_image(&image);
    for y in 0..3 {
        for x in 0..4 {
            assert!(!marks.contains(x, y));
        }
    }
    marks.insert(3, 2);
    marks.insert(0, 1);
    marks.insert(3, 2);
    for y in 0..3 {
        for x in 0..4 {
            assert_eq!(marks.contains(x, y), (x, y) == (3, 2) || (x, y) == (0, 1));
        }
    }
}
