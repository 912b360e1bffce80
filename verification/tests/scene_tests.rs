use rgss_core::bitmap::Bitmap;
use rgss_core::errors::Error;
use rgss_core::pixel::Pixel;
use rgss_core::scene::Graphics;

fn black() -> Pixel {
    Pixel { r: 0, g: 0, b: 0, a: 255 }
}

fn white() -> Pixel {
    Pixel { r: 255, g: 255, b: 255, a: 255 }
}

#[test]
fn registry_hands_out_handles() {
    let mut g = Graphics::new();
    let b1 = g.add_bitmap(Bitmap::allocate(2, 2).unwrap());
    let b2 = g.add_bitmap(Bitmap::allocate(3, 1).unwrap());
    assert_ne!(b1, b2);
    assert_eq!(g.bitmap_size(b1), (2, 2));
    assert_eq!(g.bitmap_size(b2), (3, 1));
}

#[test]
fn pixel_ops_through_handles() {
    let mut g = Graphics::new();
    let b = g.add_bitmap(Bitmap::allocate(2, 2).unwrap());
    g.set_pixel(b, 1, 0, black()).unwrap();
    assert_eq!(g.get_pixel(b, 1, 0).unwrap(), black());
    assert_eq!(g.get_pixel(b, 0, 0).unwrap(), white());
    assert_eq!(g.get_pixel(b, 2, 0).unwrap_err(), Error::OutOfBounds);
    g.fill_rect(b, 0, 0, 2, 2, black()).unwrap();
    assert_eq!(g.get_pixel(b, 0, 1).unwrap(), black());
}

#[test]
fn sprite_position_and_bitmap_handles() {
    let mut g = Graphics::new();
    let b = g.add_bitmap(Bitmap::allocate(4, 3).unwrap());
    let s = g.create_sprite(b);
    assert_eq!(g.sprite_x(s), 0);
    assert_eq!(g.sprite_y(s), 0);
    g.sprite_set_x(s, -7);
    g.sprite_set_y(s, 42);
    assert_eq!(g.sprite_x(s), -7);
    assert_eq!(g.sprite_y(s), 42);
    assert_eq!(g.sprite_bitmap(s), Some(b));
    assert_eq!(g.sprite_width(s).unwrap(), 4);
    assert_eq!(g.sprite_height(s).unwrap(), 3);
}

#[test]
fn empty_sprite_has_no_bitmap() {
    let mut g = Graphics::new();
    let s = g.create_empty_sprite();
    assert_eq!(g.sprite_bitmap(s), None);
    assert_eq!(g.sprite_width(s).unwrap_err(), Error::NoBitmap);
    assert_eq!(g.sprite_height(s).unwrap_err(), Error::NoBitmap);
}

#[test]
fn sync_clears_dirty_and_snapshots_buffer() {
    let mut g = Graphics::new();
    let b = g.add_bitmap(Bitmap::allocate(1, 1).unwrap());
    let _s = g.create_sprite(b);
    assert!(g.bitmap_is_dirty(b));
    g.sync();
    assert!(!g.bitmap_is_dirty(b));
    let calls = g.draw().unwrap();
    assert_eq!(calls.len(), 1);
    assert_eq!(calls[0].sprite, 0);
    assert_eq!(calls[0].texture.width, 1);
    assert_eq!(calls[0].texture.height, 1);
    assert_eq!(calls[0].texture.data, vec![255, 255, 255, 255]);
}

#[test]
fn sync_skips_unreferenced_and_clean_bitmaps() {
    let mut g = Graphics::new();
    let unreferenced = g.add_bitmap(Bitmap::allocate(1, 1).unwrap());
    let referenced = g.add_bitmap(Bitmap::allocate(1, 1).unwrap());
    let _s = g.create_sprite(referenced);
    g.sync();
    assert!(g.bitmap_is_dirty(unreferenced));
    assert!(!g.bitmap_is_dirty(referenced));
}

#[test]
fn texture_is_stale_until_next_sync() {
    let mut g = Graphics::new();
    let b = g.add_bitmap(Bitmap::allocate(1, 1).unwrap());
    let _s = g.create_sprite(b);
    g.sync();
    // edit after the sync: the cached texture still shows the old buffer
    g.set_pixel(b, 0, 0, black()).unwrap();
    assert!(g.bitmap_is_dirty(b));
    let calls = g.draw().unwrap();
    assert_eq!(calls[0].texture.data, vec![255, 255, 255, 255]);
    // the next sync picks the edit up
    g.sync();
    let calls = g.draw().unwrap();
    assert_eq!(calls[0].texture.data, vec![0, 0, 0, 255]);
}

#[test]
fn aliased_bitmap_edit_is_visible_through_both_sprites() {
    let mut g = Graphics::new();
    let b = g.add_bitmap(Bitmap::allocate(2, 2).unwrap());
    let s1 = g.create_sprite(b);
    let s2 = g.create_empty_sprite();
    g.sprite_set_bitmap(s2, g.sprite_bitmap(s1).unwrap());
    // write through the first sprite's bitmap handle
    let through_s1 = g.sprite_bitmap(s1).unwrap();
    g.set_pixel(through_s1, 0, 1, black()).unwrap();
    // read through the second sprite's bitmap handle
    let through_s2 = g.sprite_bitmap(s2).unwrap();
    assert_eq!(through_s1, through_s2);
    assert_eq!(g.get_pixel(through_s2, 0, 1).unwrap(), black());
    // both sprites also render the same texture after a sync
    g.sync();
    let calls = g.draw().unwrap();
    assert_eq!(calls.len(), 2);
    assert_eq!(calls[0].texture.data, calls[1].texture.data);
}

#[test]
fn draw_orders_by_depth_lowest_first() {
    let mut g = Graphics::new();
    let b = g.add_bitmap(Bitmap::allocate(1, 1).unwrap());
    let s_front = g.create_sprite(b);
    let s_back = g.create_sprite(b);
    g.sprite_set_z(s_front, 5);
    g.sprite_set_z(s_back, -3);
    g.sync();
    let calls = g.draw().unwrap();
    assert_eq!(calls.len(), 2);
    // z = -3 is issued before z = 5
    assert_eq!(calls[0].z, -3);
    assert_eq!(calls[0].sprite, 1);
    assert_eq!(calls[1].z, 5);
    assert_eq!(calls[1].sprite, 0);
}

#[test]
fn draw_keeps_registration_order_among_equal_depths() {
    let mut g = Graphics::new();
    let b = g.add_bitmap(Bitmap::allocate(1, 1).unwrap());
    let _first = g.create_sprite(b);
    let second = g.create_sprite(b);
    let _third = g.create_sprite(b);
    g.sprite_set_z(second, -1);
    g.sync();
    let calls = g.draw().unwrap();
    assert_eq!(calls.iter().map(|c| c.sprite).collect::<Vec<_>>(), vec![1, 0, 2]);
    let zs: Vec<i32> = calls.iter().map(|c| c.z).collect();
    assert!(zs.windows(2).all(|w| w[0] <= w[1]));
}

#[test]
fn draw_fails_on_sprite_without_texture() {
    let mut g = Graphics::new();
    let _s = g.create_empty_sprite();
    g.sync();
    assert_eq!(g.draw().unwrap_err(), Error::NotRenderable);
}

#[test]
fn scenario_black_square_one_draw_call() {
    // allocate a 2x2 bitmap, fill it fully opaque black, sprite it, sync,
    // draw: exactly one call whose texture is 4 black opaque pixels
    let mut g = Graphics::new();
    let b = g.add_bitmap(Bitmap::allocate(2, 2).unwrap());
    g.fill_rect(b, 0, 0, 2, 2, black()).unwrap();
    let _s = g.create_sprite(b);
    g.sync();
    let calls = g.draw().unwrap();
    assert_eq!(calls.len(), 1);
    assert_eq!(calls[0].texture.width, 2);
    assert_eq!(calls[0].texture.height, 2);
    assert_eq!(calls[0].texture.data, vec![0, 0, 0, 255, 0, 0, 0, 255, 0, 0, 0, 255, 0, 0, 0, 255]);
}

#[test]
fn create_sprite_from_bytes_registers_bitmap_and_sprite() {
    let mut bytes = b"P6\n1 1\n255\n".to_vec();
    bytes.extend_from_slice(&[7, 8, 9]);
    let mut g = Graphics::new();
    let s = g.create_sprite_from_bytes(&bytes).unwrap();
    let b = g.sprite_bitmap(s).unwrap();
    assert_eq!(g.bitmap_size(b), (1, 1));
    assert_eq!(g.get_pixel(b, 0, 0).unwrap(), Pixel { r: 7, g: 8, b: 9, a: 255 });
    g.sync();
    assert_eq!(g.draw().unwrap().len(), 1);
}

#[test]
fn create_sprite_from_bad_bytes_propagates_decode_error() {
    let mut g = Graphics::new();
    assert_eq!(g.create_sprite_from_bytes(b"garbage").unwrap_err(), Error::DecodeError);
    // the failed creation left nothing behind
    g.sync();
    assert_eq!(g.draw().unwrap().len(), 0);
}
