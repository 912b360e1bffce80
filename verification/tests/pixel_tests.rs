use rgss_core::pixel::Pixel;
use rgss_core::pixel::pack_rgba8;
use rgss_core::pixel::pixel_from_wide;

#[test]
fn pack_rgba8_keeps_channels() {
    let p = pack_rgba8(1, 2, 3, 4);
    assert_eq!(p, Pixel { r: 1, g: 2, b: 3, a: 4 });
}

#[test]
fn pixel_from_wide_keeps_in_range_channels() {
    let p = pixel_from_wide(0, 128, 255, 7);
    assert_eq!(p, Pixel { r: 0, g: 128, b: 255, a: 7 });
}

#[test]
fn pixel_from_wide_clamps_out_of_range_channels() {
    let p = pixel_from_wide(-1, 256, 1000, -999);
    assert_eq!(p, Pixel { r: 0, g: 255, b: 255, a: 0 });
}
