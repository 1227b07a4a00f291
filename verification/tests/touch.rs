//! The on-screen controls.

use zz_client::game::Session;
use zz_client::scalar::F32;
use zz_client::touch::{
    button_layout, is_tap, mouse_steps, over_button, stick_to_move, touch_chrome_visible,
    MouseSteps, Press, StickVec, TouchBtn, TouchIntent, TouchState, FIRE_REACH_BITS, MOUSE_PTR,
    SIDE_REACH_BITS, STICK_DEADZONE_BITS, STICK_SNAP_BITS, STICK_ZONE_BITS, TAP_MAX_S_BITS, TAP_MOVE_PX_BITS,
};

fn key(v: f32) -> F32 {
    F32::from_bits(v.to_bits())
}

fn stick(x: f32, y: f32) -> StickVec {
    StickVec { x: key(x), y: key(y) }
}

#[test]
fn stick_deadzone_neutral() {
    let (f, b, l, r) = stick_to_move(stick(0.2, -0.2), key(0.35));
    assert!(!f && !b && !l && !r);
}

#[test]
fn stick_forward_and_right() {
    let (f, b, l, r) = stick_to_move(stick(0.8, -0.9), key(0.35));
    assert!(f && !b && !l && r);
}

#[test]
fn stick_backward_left() {
    let (f, b, l, r) = stick_to_move(stick(-0.5, 0.6), key(0.35));
    assert!(!f && b && l && !r);
}

#[test]
fn stick_diagonals_both_axes() {
    let (f, b, l, r) = stick_to_move(stick(0.4, -0.4), key(0.35));
    assert!(f && !b && !l && r);
}

#[test]
fn tap_vs_drag_classification() {
    let max_s = F32::from_bits(TAP_MAX_S_BITS);
    let max_px = F32::from_bits(TAP_MOVE_PX_BITS);
    assert!(is_tap(key(0.1), key(5.0), max_s, max_px));
    assert!(!is_tap(key(0.5), key(5.0), max_s, max_px)); // too long
    assert!(!is_tap(key(0.1), key(40.0), max_s, max_px)); // too far
}

#[test]
fn touch_constants_are_the_numbers_they_name() {
    assert_eq!(f32::from_bits(STICK_DEADZONE_BITS), 0.35);
    assert_eq!(f32::from_bits(TAP_MOVE_PX_BITS), 12.0);
    assert_eq!(f32::from_bits(TAP_MAX_S_BITS), 0.22);
    assert_eq!(f32::from_bits(STICK_SNAP_BITS), 64.0 * 1.4);
    assert_eq!(f32::from_bits(STICK_ZONE_BITS), 0.5, "the left half");
    assert_eq!(f32::from_bits(FIRE_REACH_BITS), 88.0 * 0.55);
    assert_eq!(f32::from_bits(SIDE_REACH_BITS), 68.0 * 0.55);
}

fn press(id: u64, x: f32, home_dist: f32) -> Press<(i32, i32)> {
    Press {
        id,
        pos: (x as i32, 0),
        on_button: false,
        x: key(x),
        zone_end: key(900.0 * f32::from_bits(STICK_ZONE_BITS)),
        home_dist: key(home_dist),
        stick_home: (-1, -1),
    }
}

#[test]
fn presses_take_stick_and_aim() {
    let mut t: TouchState<(i32, i32)> = TouchState::new();
    t.begin_pointer(Press { on_button: true, ..press(1, 10.0, 500.0) });
    assert!(t.stick.is_none() && t.aim.is_none());
    t.begin_pointer(press(1, 10.0, 500.0));
    assert_eq!(t.stick_origin(1), Some((10, 0)));
    t.begin_pointer(press(2, 20.0, 500.0));
    assert_eq!(t.aim_start(2), Some((20, 0)), "a second press on the left aims");
    t.begin_pointer(press(3, 900.0, 500.0));
    assert_eq!(t.aim_start(3), None, "the aim is taken");
    t.end_pointer(1);
    assert!(t.stick.is_none() && t.aim.is_some());
    t.begin_pointer(press(4, 30.0, 80.0));
    assert_eq!(t.stick_origin(4), Some((-1, -1)), "close presses snap to the resting stick");
}

#[test]
fn stick_drives_directions() {
    let mut t: TouchState<(i32, i32)> = TouchState::new();
    assert_eq!(t.stick_bools(), (false, false, false, false));
    t.begin_pointer(press(1, 10.0, 500.0));
    t.move_stick(2, stick(1.0, 0.0));
    assert_eq!(t.stick_bools(), (false, false, false, false));
    t.move_stick(1, stick(1.0, -1.0));
    assert_eq!(t.stick_bools(), (true, false, false, true));
}

#[test]
fn aim_starts_beyond_a_tap() {
    let mut t: TouchState<(i32, i32)> = TouchState::new();
    t.begin_pointer(press(1, 900.0, 500.0));
    assert_eq!(t.move_aim(1, (905, 0), key(5.0)), None);
    assert_eq!(t.move_aim(1, (912, 0), key(12.0)), Some((905, 0)));
    assert_eq!(t.move_aim(1, (911, 0), key(11.0)), Some((912, 0)), "a drag stays a drag");
    assert_eq!(t.move_aim(7, (0, 0), key(99.0)), None);
}

#[test]
fn first_gesture_unlocks_audio_once() {
    let mut t: TouchState<(i32, i32)> = TouchState::new();
    assert!(!t.unlock_audio_on_gesture(false));
    assert!(t.unlock_audio_on_gesture(true));
    assert!(!t.unlock_audio_on_gesture(true));
}

#[test]
fn buttons_hold_while_pressed() {
    let mut i = TouchIntent::new(true);
    i.set_directions((true, false, false, true));
    i.sample_buttons(&vec![TouchBtn::Fire, TouchBtn::Reload]);
    assert!(i.forward && i.right && i.fire && i.reload && !i.jump);
    i.sample_buttons(&vec![]);
    assert!(i.forward && !i.fire && !i.reload);
    assert!(touch_chrome_visible(&i, Session::Playing { my_slot: 0 }));
    assert!(!touch_chrome_visible(&i, Session::Menu));
    assert!(!touch_chrome_visible(&TouchIntent::new(false), Session::Playing { my_slot: 0 }));
}

#[test]
fn buttons_are_laid_out_apart() {
    let fire = button_layout(TouchBtn::Fire);
    assert_eq!((fire.label.as_str(), fire.size, fire.inset_right, fire.inset_bottom), ("FIRE", 88, 56, 72));
    assert_eq!(fire.font, 14);
    let melee = button_layout(TouchBtn::Melee);
    assert_eq!((melee.inset_right, melee.inset_bottom, melee.font), (250, 150, 11));
    assert_eq!(button_layout(TouchBtn::Grenade).label, "NADE");
}

#[test]
fn presses_near_a_button_belong_to_it() {
    assert!(over_button(&vec![(TouchBtn::Jump, key(37.0))]));
    assert!(!over_button(&vec![(TouchBtn::Jump, key(38.0))]));
    assert!(over_button(&vec![(TouchBtn::Jump, key(99.0)), (TouchBtn::Fire, key(48.0))]));
    assert!(!over_button(&vec![]));
}

#[test]
fn mouse_stands_in_for_a_finger() {
    assert_eq!(MOUSE_PTR, u64::MAX);
    assert_eq!(
        mouse_steps(true, true, true, false),
        MouseSteps { begins: true, moves: true, ends: false }
    );
    assert_eq!(
        mouse_steps(false, true, true, true),
        MouseSteps { begins: false, moves: false, ends: true }
    );
}
