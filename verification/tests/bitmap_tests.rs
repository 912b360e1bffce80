use rgss_core::bitmap::Bitmap;
use rgss_core::errors::Error;
use rgss_core::pixel::Pixel;

fn black() -> Pixel {
    Pixel { r: 0, g: 0, b: 0, a: 255 }
}

fn white() -> Pixel {
    Pixel { r: 255, g: 255, b: 255, a: 255 }
}

#[test]
fn allocate_fills_opaque_white_and_is_dirty() {
    let bm = Bitmap::allocate(3, 2).unwrap();
    assert_eq!(bm.width(), 3);
    assert_eq!(bm.height(), 2);
    assert!(bm.is_dirty());
    for y in 0..2 {
        for x in 0..3 {
            assert_eq!(bm.get_pixel(x, y).unwrap(), white());
        }
    }
}

#[test]
fn allocate_rejects_zero_dimensions() {
    assert_eq!(Bitmap::allocate(0, 4).unwrap_err(), Error::InvalidDimensions);
    assert_eq!(Bitmap::allocate(4, 0).unwrap_err(), Error::InvalidDimensions);
    assert_eq!(Bitmap::allocate(0, 0).unwrap_err(), Error::InvalidDimensions);
}

#[test]
fn set_then_get_roundtrip() {
    let mut bm = Bitmap::allocate(4, 4).unwrap();
    let p = Pixel { r: 10, g: 20, b: 30, a: 40 };
    bm.set_pixel(2, 3, p).unwrap();
    assert_eq!(bm.get_pixel(2, 3).unwrap(), p);
    // neighbours untouched
    assert_eq!(bm.get_pixel(1, 3).unwrap(), white());
    assert_eq!(bm.get_pixel(3, 3).unwrap(), white());
    assert_eq!(bm.get_pixel(2, 2).unwrap(), white());
}

#[test]
fn set_pixel_raises_dirty_even_for_unchanged_value() {
    let mut bm = Bitmap::allocate(2, 2).unwrap();
    bm.clear_dirty();
    assert!(!bm.is_dirty());
    // writing the value that is already there must still raise the flag
    bm.set_pixel(0, 0, white()).unwrap();
    assert!(bm.is_dirty());
}

#[test]
fn get_pixel_out_of_bounds_at_width() {
    let bm = Bitmap::allocate(5, 3).unwrap();
    assert_eq!(bm.get_pixel(5, 0).unwrap_err(), Error::OutOfBounds);
    assert_eq!(bm.get_pixel(0, 3).unwrap_err(), Error::OutOfBounds);
    assert_eq!(bm.get_pixel(5, 3).unwrap_err(), Error::OutOfBounds);
}

#[test]
fn set_pixel_out_of_bounds_leaves_bitmap_unchanged() {
    let mut bm = Bitmap::allocate(2, 2).unwrap();
    bm.clear_dirty();
    assert_eq!(bm.set_pixel(2, 0, black()).unwrap_err(), Error::OutOfBounds);
    assert!(!bm.is_dirty());
    assert_eq!(bm.get_pixel(1, 1).unwrap(), white());
}

#[test]
fn fill_rect_fills_exactly_the_rectangle() {
    let mut bm = Bitmap::allocate(4, 4).unwrap();
    let p = Pixel { r: 1, g: 2, b: 3, a: 4 };
    bm.fill_rect(1, 2, 2, 2, p).unwrap();
    for y in 0..4 {
        for x in 0..4 {
            let expect = if (1..3).contains(&x) && (2..4).contains(&y) { p } else { white() };
            assert_eq!(bm.get_pixel(x, y).unwrap(), expect);
        }
    }
}

#[test]
fn fill_rect_raises_dirty_even_for_unchanged_value() {
    let mut bm = Bitmap::allocate(2, 2).unwrap();
    bm.clear_dirty();
    bm.fill_rect(0, 0, 2, 2, white()).unwrap();
    assert!(bm.is_dirty());
}

#[test]
fn fill_rect_rejects_rectangles_leaving_the_bitmap() {
    let mut bm = Bitmap::allocate(4, 4).unwrap();
    assert_eq!(bm.fill_rect(3, 0, 2, 1, black()).unwrap_err(), Error::OutOfBounds);
    assert_eq!(bm.fill_rect(0, 3, 1, 2, black()).unwrap_err(), Error::OutOfBounds);
    assert_eq!(bm.fill_rect(4, 4, 1, 1, black()).unwrap_err(), Error::OutOfBounds);
    // nothing was written by the failed fills
    for y in 0..4 {
        for x in 0..4 {
            assert_eq!(bm.get_pixel(x, y).unwrap(), white());
        }
    }
}

#[test]
fn fill_rect_accepts_empty_rectangle() {
    let mut bm = Bitmap::allocate(2, 2).unwrap();
    // an empty rectangle has no cells, even anchored at the far edge
    bm.fill_rect(2, 2, 0, 0, black()).unwrap();
    assert_eq!(bm.get_pixel(1, 1).unwrap(), white());
}

fn ppm_2x1() -> Vec<u8> {
    // binary PPM: two RGB pixels, (1,2,3) then (4,5,6)
    let mut bytes = b"P6\n2 1\n255\n".to_vec();
    bytes.extend_from_slice(&[1, 2, 3, 4, 5, 6]);
    bytes
}

#[test]
fn decode_reads_dimensions_and_pixels() {
    let bm = Bitmap::decode(&ppm_2x1()).unwrap();
    assert_eq!(bm.width(), 2);
    assert_eq!(bm.height(), 1);
    assert!(bm.is_dirty());
    assert_eq!(bm.get_pixel(0, 0).unwrap(), Pixel { r: 1, g: 2, b: 3, a: 255 });
    assert_eq!(bm.get_pixel(1, 0).unwrap(), Pixel { r: 4, g: 5, b: 6, a: 255 });
}

#[test]
fn decode_rejects_unsupported_bytes() {
    assert_eq!(Bitmap::decode(b"not an image").unwrap_err(), Error::DecodeError);
    assert_eq!(Bitmap::decode(&[]).unwrap_err(), Error::DecodeError);
}

#[test]
fn from_decoded_checks_buffer_length() {
    let bm = Bitmap::from_decoded(1, 1, vec![9, 8, 7, 255]).unwrap();
    assert_eq!(bm.get_pixel(0, 0).unwrap(), Pixel { r: 9, g: 8, b: 7, a: 255 });
    assert_eq!(Bitmap::from_decoded(2, 1, vec![9, 8, 7, 255]).unwrap_err(), Error::DecodeError);
}
