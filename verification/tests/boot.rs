//! The first frames, the pointer, the menu camera and the picture's fit.

use zz_client::boot::{
    fly_camera_look, fly_camera_move, toggle_cursor_grab, BackdropStep, BootClock, CursorChange,
    FlyKeys, SkeletonSpawn,
};
use zz_client::retro::{FittedSize, RETRO_H, RETRO_W};
use zz_client::scalar::F32;

fn key(v: f32) -> F32 {
    F32::from_bits(v.to_bits())
}

#[test]
fn engine_is_ready_once() {
    let mut clock = BootClock::new();
    assert!(clock.mark_engine_ready_first_frame());
    assert!(!clock.mark_engine_ready_first_frame());
}

#[test]
fn backdrop_is_spread_over_frames() {
    let mut spawn = SkeletonSpawn::new();
    assert_eq!(spawn.stagger_skeleton_backdrop(), BackdropStep::Nothing);
    assert_eq!(spawn.stagger_skeleton_backdrop(), BackdropStep::GroundAndSun);
    let mut boxes = Vec::new();
    for row in 0..6 {
        match spawn.stagger_skeleton_backdrop() {
            BackdropStep::Boxes(b) => {
                assert_eq!(b.len(), 5);
                assert!(b.iter().all(|x| x.z == -30 + 12 * row));
                boxes.extend(b);
            }
            other => panic!("row {row}: {other:?}"),
        }
    }
    assert!(spawn.done);
    assert_eq!(spawn.stagger_skeleton_backdrop(), BackdropStep::Nothing);
    assert_eq!(boxes.len(), 30);
    for b in &boxes {
        let gx = (b.x + 24) / 12;
        let gz = (b.z + 30) / 12;
        let i = gx * 6 + gz;
        let h = 1.5 + ((i * 17 + gx * 3 + gz * 7) % 14) as f32 * 0.5;
        assert_eq!(b.half_metres as f32 * 0.5, h);
        assert_eq!(b.color, (i % 6) as u32);
    }
}

#[test]
fn pointer_lock_follows_click_and_escape() {
    assert_eq!(toggle_cursor_grab(false, false, true, false), CursorChange::Lock);
    assert_eq!(toggle_cursor_grab(false, true, false, true), CursorChange::Free);
    assert_eq!(toggle_cursor_grab(false, false, true, true), CursorChange::Free);
    assert_eq!(toggle_cursor_grab(false, false, false, false), CursorChange::Keep);
    assert_eq!(toggle_cursor_grab(true, false, true, false), CursorChange::Keep);
    assert_eq!(toggle_cursor_grab(true, true, true, false), CursorChange::Free);
}

#[test]
fn opposite_keys_cancel_out() {
    let none = FlyKeys {
        forward: false,
        back: false,
        left: false,
        right: false,
        up: false,
        down: false,
        sprint: false,
    };
    let w = fly_camera_move(&FlyKeys { forward: true, left: true, up: true, sprint: true, ..none });
    assert_eq!((w.forward, w.right, w.up, w.sprint), (1, -1, 1, true));
    let c = fly_camera_move(&FlyKeys { forward: true, back: true, down: true, ..none });
    assert_eq!((c.forward, c.right, c.up, c.sprint), (0, 0, -1, false));
    assert!(fly_camera_look(true, true));
    assert!(!fly_camera_look(false, true) && !fly_camera_look(true, false));
}

#[test]
fn picture_is_fitted_only_when_the_window_changes() {
    assert_eq!((RETRO_W, RETRO_H), (480, 270));
    let mut fit = FittedSize::new();
    assert!(!fit.fit_blit_node(key(0.0), key(100.0)));
    assert!(!fit.fit_blit_node(key(100.0), key(-1.0)));
    assert!(fit.fit_blit_node(key(1280.0), key(720.0)));
    assert!(!fit.fit_blit_node(key(1280.0), key(720.0)));
    assert!(fit.fit_blit_node(key(1280.0), key(800.0)));
}
