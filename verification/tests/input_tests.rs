use rgss_core::input::Input;
use rgss_core::input::Key;
use rgss_core::input::key_of_name;

#[test]
fn key_names_resolve_case_insensitively() {
    assert_eq!(key_of_name("up"), Some(Key::Up));
    assert_eq!(key_of_name("Up"), Some(Key::Up));
    assert_eq!(key_of_name("UP"), Some(Key::Up));
    assert_eq!(key_of_name("down"), Some(Key::Down));
    assert_eq!(key_of_name("DoWn"), Some(Key::Down));
    assert_eq!(key_of_name("left"), Some(Key::Left));
    assert_eq!(key_of_name("LEFT"), Some(Key::Left));
    assert_eq!(key_of_name("right"), Some(Key::Right));
    assert_eq!(key_of_name("Right"), Some(Key::Right));
}

#[test]
fn unknown_key_names_resolve_to_none() {
    assert_eq!(key_of_name(""), None);
    assert_eq!(key_of_name("jump"), None);
    assert_eq!(key_of_name("upp"), None);
    assert_eq!(key_of_name("rights"), None);
    assert_eq!(key_of_name("lefty"), None);
}

#[test]
fn fresh_input_reads_all_false() {
    let input = Input::new();
    assert!(!input.is_pressed("up"));
    assert!(!input.is_triggered("up"));
    assert!(!input.is_pressed_key(Key::Left));
    assert!(!input.is_triggered_key(Key::Left));
    // unknown names behave as "always false"
    assert!(!input.is_pressed("fire"));
    assert!(!input.is_triggered("fire"));
}

#[test]
fn scenario_right_key_press_release_frame() {
    let mut input = Input::new();
    // press "Right"
    input.key_down(Key::Right);
    assert!(input.is_pressed("right"));
    assert!(!input.is_triggered("right"));
    // release it
    input.key_up(Key::Right);
    assert!(input.is_triggered("right"));
    assert!(!input.is_pressed("right"));
    // after the next frame start the trigger is gone
    input.begin_frame();
    assert!(!input.is_triggered("right"));
}

#[test]
fn trigger_lasts_exactly_one_frame_while_press_is_stable() {
    let mut input = Input::new();
    input.key_down(Key::Up);
    input.key_down(Key::Left);
    input.key_up(Key::Up);
    // frame right after the release: trigger reads true
    assert!(input.is_triggered_key(Key::Up));
    input.begin_frame();
    // one frame later: trigger is false again, held state untouched
    assert!(!input.is_triggered_key(Key::Up));
    assert!(!input.is_pressed_key(Key::Up));
    assert!(input.is_pressed_key(Key::Left));
    input.begin_frame();
    assert!(!input.is_triggered_key(Key::Up));
    assert!(input.is_pressed_key(Key::Left));
}

#[test]
fn press_persists_across_frames_until_changed() {
    let mut input = Input::new();
    input.key_down(Key::Down);
    input.begin_frame();
    input.begin_frame();
    assert!(input.is_pressed_key(Key::Down));
    input.key_up(Key::Down);
    assert!(!input.is_pressed_key(Key::Down));
}
