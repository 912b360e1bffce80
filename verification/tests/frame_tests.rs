use rgss_core::bitmap::Bitmap;
use rgss_core::errors::Error;
use rgss_core::frame::advance_frame;
use rgss_core::input::Input;
use rgss_core::input::Key;
use rgss_core::pixel::Pixel;
use rgss_core::scene::Graphics;

#[test]
fn frame_syncs_draws_and_clears_triggers() {
    let mut g = Graphics::new();
    let mut input = Input::new();
    let b = g.add_bitmap(Bitmap::allocate(1, 1).unwrap());
    let s = g.create_sprite(b);
    g.sprite_set_x(s, 12);
    g.sprite_set_y(s, 34);
    input.key_up(Key::Right);
    assert!(input.is_triggered_key(Key::Right));

    let calls = advance_frame(&mut g, &mut input).unwrap();
    assert_eq!(calls.len(), 1);
    assert_eq!(calls[0].x, 12);
    assert_eq!(calls[0].y, 34);
    assert_eq!(calls[0].texture.data, vec![255, 255, 255, 255]);
    assert!(!g.bitmap_is_dirty(b));
    // the frame boundary cleared the trigger
    assert!(!input.is_triggered_key(Key::Right));
}

#[test]
fn frame_reports_unrenderable_sprite() {
    let mut g = Graphics::new();
    let mut input = Input::new();
    let _s = g.create_empty_sprite();
    assert_eq!(advance_frame(&mut g, &mut input).unwrap_err(), Error::NotRenderable);
}

#[test]
fn edits_between_frames_show_on_the_next_frame() {
    let mut g = Graphics::new();
    let mut input = Input::new();
    let b = g.add_bitmap(Bitmap::allocate(1, 1).unwrap());
    let _s = g.create_sprite(b);
    let first = advance_frame(&mut g, &mut input).unwrap();
    assert_eq!(first[0].texture.data, vec![255, 255, 255, 255]);
    g.set_pixel(b, 0, 0, Pixel { r: 9, g: 9, b: 9, a: 9 }).unwrap();
    let second = advance_frame(&mut g, &mut input).unwrap();
    assert_eq!(second[0].texture.data, vec![9, 9, 9, 9]);
}
