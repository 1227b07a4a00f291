//! The pointer latch, alone and against a real GUI pass.

use bevy::ecs::message::Messages;
use bevy::input::mouse::{MouseButton, MouseButtonInput};
use bevy::input::ButtonState;
use bevy::math::Vec2;
use bevy::prelude::{Entity, World};
use bevy::window::CursorMoved;
use bevy_egui::egui::{self, Context, Modifiers, Pos2, RawInput, Rect};
use bevy_egui::input::EguiContextPointerPosition;
use bevy_egui::EguiInput;

use zz_client::egui_click_latch::{
    pointer_button_index, split_same_frame_pointer_batches, EguiClickLatch, Event, PointerButton,
    POINTER_BUTTON_COUNT,
};

type Ev = Event<Pos2>;

fn press(button: PointerButton, pos: Pos2) -> Ev {
    Event::PointerButton { button, pressed: true, detail: pos }
}

fn release(button: PointerButton, pos: Pos2) -> Ev {
    Event::PointerButton { button, pressed: false, detail: pos }
}

fn is_primary_press(ev: &Ev) -> bool {
    matches!(ev, Event::PointerButton { pressed: true, button: PointerButton::Primary, .. })
}

fn is_primary_release(ev: &Ev) -> bool {
    matches!(ev, Event::PointerButton { pressed: false, button: PointerButton::Primary, .. })
}

fn gui_button(button: PointerButton) -> egui::PointerButton {
    match button {
        PointerButton::Primary => egui::PointerButton::Primary,
        PointerButton::Secondary => egui::PointerButton::Secondary,
        PointerButton::Middle => egui::PointerButton::Middle,
        PointerButton::Extra1 => egui::PointerButton::Extra1,
        PointerButton::Extra2 => egui::PointerButton::Extra2,
    }
}

fn own_button(button: egui::PointerButton) -> PointerButton {
    match button {
        egui::PointerButton::Primary => PointerButton::Primary,
        egui::PointerButton::Secondary => PointerButton::Secondary,
        egui::PointerButton::Middle => PointerButton::Middle,
        egui::PointerButton::Extra1 => PointerButton::Extra1,
        egui::PointerButton::Extra2 => PointerButton::Extra2,
    }
}

fn to_gui(ev: Ev) -> egui::Event {
    match ev {
        Event::PointerMoved(pos) => egui::Event::PointerMoved(pos),
        Event::PointerButton { button, pressed, detail } => egui::Event::PointerButton {
            pos: detail,
            button: gui_button(button),
            pressed,
            modifiers: Modifiers::NONE,
        },
        Event::Other(_) => egui::Event::PointerGone,
    }
}

fn from_gui(ev: &egui::Event) -> Ev {
    match ev {
        egui::Event::PointerMoved(pos) => Event::PointerMoved(*pos),
        egui::Event::PointerButton { pos, button, pressed, .. } => Event::PointerButton {
            button: own_button(*button),
            pressed: *pressed,
            detail: *pos,
        },
        _ => Event::Other(Pos2::ZERO),
    }
}

#[test]
fn same_frame_press_release_defers_release_only() {
    let pos = Pos2::new(100.0, 200.0);
    let mut events = vec![
        press(PointerButton::Primary, pos),
        release(PointerButton::Primary, pos),
    ];
    let mut deferred = Vec::new();
    split_same_frame_pointer_batches(&mut events, &mut deferred);

    assert_eq!(events.len(), 1, "press stays");
    assert!(is_primary_press(&events[0]));
    assert_eq!(deferred.len(), 1);
    assert!(is_primary_release(&deferred[0]));
}

#[test]
fn press_only_unchanged() {
    let pos = Pos2::ZERO;
    let mut events = vec![press(PointerButton::Primary, pos)];
    let mut deferred = Vec::new();
    split_same_frame_pointer_batches(&mut events, &mut deferred);
    assert_eq!(events.len(), 1);
    assert!(deferred.is_empty());
}

#[test]
fn release_only_unchanged() {
    let pos = Pos2::ZERO;
    let mut events = vec![release(PointerButton::Primary, pos)];
    let mut deferred = Vec::new();
    split_same_frame_pointer_batches(&mut events, &mut deferred);
    assert_eq!(events.len(), 1);
    assert!(deferred.is_empty());
}

#[test]
fn move_only_unchanged() {
    let pos = Pos2::new(1.0, 2.0);
    let mut events = vec![Event::PointerMoved(pos)];
    let mut deferred = Vec::new();
    split_same_frame_pointer_batches(&mut events, &mut deferred);
    assert_eq!(events.len(), 1);
    assert!(deferred.is_empty());
}

#[test]
fn only_defers_buttons_that_also_pressed() {
    let pos = Pos2::new(1.0, 2.0);
    let mut events = vec![
        press(PointerButton::Primary, pos),
        release(PointerButton::Primary, pos),
        release(PointerButton::Secondary, pos), // no matching press
    ];
    let mut deferred = Vec::new();
    split_same_frame_pointer_batches(&mut events, &mut deferred);
    assert_eq!(deferred.len(), 1);
    assert!(matches!(
        &deferred[0],
        Event::PointerButton { button: PointerButton::Primary, pressed: false, .. }
    ));
    assert!(
        events.iter().any(|e| matches!(
            e,
            Event::PointerButton { button: PointerButton::Secondary, pressed: false, .. }
        )),
        "orphan secondary release stays"
    );
}

#[test]
fn teleport_move_press_release_defers_press_and_release() {
    let pos = Pos2::new(100.0, 200.0);
    let mut events = vec![
        Event::PointerMoved(pos),
        press(PointerButton::Primary, pos),
        release(PointerButton::Primary, pos),
    ];
    let mut deferred = Vec::new();
    split_same_frame_pointer_batches(&mut events, &mut deferred);

    assert_eq!(events.len(), 1, "frame N: move only");
    assert!(matches!(&events[0], Event::PointerMoved(p) if *p == pos));
    assert_eq!(deferred.len(), 2, "press + release deferred");
    assert!(is_primary_press(&deferred[0]));
    assert!(is_primary_release(&deferred[1]));
}

#[test]
fn move_plus_press_defers_press_only() {
    let pos = Pos2::new(40.0, 60.0);
    let mut events = vec![Event::PointerMoved(pos), press(PointerButton::Primary, pos)];
    let mut deferred = Vec::new();
    split_same_frame_pointer_batches(&mut events, &mut deferred);
    assert_eq!(events.len(), 1);
    assert!(matches!(events[0], Event::PointerMoved(_)));
    assert_eq!(deferred.len(), 1);
    assert!(is_primary_press(&deferred[0]));
}

#[test]
fn teleport_batch_stages_across_three_frames() {
    let pos = Pos2::new(40.0, 60.0);
    let mut frame_n = vec![
        Event::PointerMoved(pos),
        press(PointerButton::Primary, pos),
        release(PointerButton::Primary, pos),
    ];
    let mut deferred = Vec::new();
    split_same_frame_pointer_batches(&mut frame_n, &mut deferred);
    assert_eq!(frame_n.len(), 1);
    assert!(matches!(frame_n[0], Event::PointerMoved(_)));
    assert_eq!(deferred.len(), 2);

    let mut frame_n1 = deferred;
    let mut deferred2 = Vec::new();
    split_same_frame_pointer_batches(&mut frame_n1, &mut deferred2);
    assert_eq!(frame_n1.len(), 1);
    assert!(is_primary_press(&frame_n1[0]));
    assert_eq!(deferred2.len(), 1);
    assert!(is_primary_release(&deferred2[0]));

    let mut frame_n2 = deferred2;
    let mut deferred3 = Vec::new();
    split_same_frame_pointer_batches(&mut frame_n2, &mut deferred3);
    assert!(deferred3.is_empty());
    assert_eq!(frame_n2.len(), 1);
    assert!(is_primary_release(&frame_n2[0]));
}

#[test]
fn inject_then_split_roundtrip_two_frames() {
    let pos = Pos2::new(40.0, 60.0);
    let mut frame_n = vec![
        press(PointerButton::Primary, pos),
        release(PointerButton::Primary, pos),
    ];
    let mut deferred = Vec::new();
    split_same_frame_pointer_batches(&mut frame_n, &mut deferred);
    assert_eq!(deferred.len(), 1);

    let mut frame_n1 = deferred;
    let mut deferred2 = Vec::new();
    split_same_frame_pointer_batches(&mut frame_n1, &mut deferred2);
    assert!(deferred2.is_empty(), "release-only must not re-defer");
    assert_eq!(frame_n1.len(), 1);
    assert!(is_primary_release(&frame_n1[0]));
}

#[test]
fn injected_release_not_redeferred_when_new_press_follows() {
    let pos = Pos2::new(10.0, 10.0);
    let mut events = vec![
        release(PointerButton::Primary, pos),
        press(PointerButton::Primary, pos),
    ];
    let mut deferred = Vec::new();
    split_same_frame_pointer_batches(&mut events, &mut deferred);
    assert!(deferred.is_empty(), "orphan leading release must not re-defer");
    assert_eq!(events.len(), 2);
}

#[test]
fn release_then_press_then_release_defers_only_second_release() {
    let pos = Pos2::ZERO;
    let mut events = vec![
        release(PointerButton::Primary, pos), // previous frame leftover
        press(PointerButton::Primary, pos),
        release(PointerButton::Primary, pos), // same-frame pair
    ];
    let mut deferred = Vec::new();
    split_same_frame_pointer_batches(&mut events, &mut deferred);
    assert_eq!(deferred.len(), 1);
    assert!(is_primary_release(&deferred[0]));
    assert_eq!(events.len(), 2); // leading release + press
}

#[test]
fn already_spanned_move_then_press_not_restaged() {
    let pos = Pos2::new(8.0, 8.0);
    let mut move_frame: Vec<Ev> = vec![Event::PointerMoved(pos)];
    let mut d = Vec::new();
    split_same_frame_pointer_batches(&mut move_frame, &mut d);
    assert!(d.is_empty());

    let mut press_frame = vec![press(PointerButton::Primary, pos)];
    split_same_frame_pointer_batches(&mut press_frame, &mut d);
    assert!(d.is_empty());
    assert_eq!(press_frame.len(), 1);
}

// ---- against the GUI ------------------------------------------------------------

fn raw_frame(t: f64, events: Vec<Ev>) -> RawInput {
    RawInput {
        screen_rect: Some(Rect::from_min_size(Pos2::ZERO, egui::Vec2::new(1280.0, 720.0))),
        time: Some(t),
        predicted_dt: 1.0 / 60.0,
        events: events.into_iter().map(to_gui).collect(),
        ..Default::default()
    }
}

/// Shows the button for a few frames with the pointer far away and returns its
/// middle.
fn warm_up(ctx: &Context, t: &mut f64, label: &str) -> Pos2 {
    let mut rect = Rect::NOTHING;
    for _ in 0..4 {
        *t += 1.0 / 60.0;
        let warm = raw_frame(*t, vec![Event::PointerMoved(Pos2::new(1.0, 1.0))]);
        let _ = ctx.run_ui(warm, |ui| {
            rect = ui.button(label).rect;
        });
    }
    rect.center()
}

fn show(ctx: &Context, t: &mut f64, label: &str, events: Vec<Ev>, discard: bool) -> u32 {
    *t += 1.0 / 60.0;
    let mut clicks = 0_u32;
    let _ = ctx.run_ui(raw_frame(*t, events), |ui| {
        if ui.button(label).clicked() {
            clicks += 1;
        }
        if discard {
            ui.ctx().request_discard("simulate multipass");
        }
    });
    clicks
}

#[test]
fn latched_teleport_stream_produces_exactly_one_egui_click() {
    let ctx = Context::default();
    let mut t = 0.0_f64;
    let pos = warm_up(&ctx, &mut t, "HOST");

    let mut clicks = show(&ctx, &mut t, "HOST", vec![Event::PointerMoved(pos)], true);
    assert_eq!(clicks, 0, "move alone must not click");

    clicks += show(&ctx, &mut t, "HOST", vec![press(PointerButton::Primary, pos)], true);
    assert_eq!(clicks, 0, "press alone must not click");

    clicks += show(&ctx, &mut t, "HOST", vec![release(PointerButton::Primary, pos)], true);
    assert_eq!(clicks, 1, "latched release must land exactly once");
}

/// A single-frame teleport batch through the latch, shown frame by frame.
fn latched_teleport_clicks(label: &str) -> u32 {
    let ctx = Context::default();
    let mut t = 0.0_f64;
    let pos = warm_up(&ctx, &mut t, label);

    let mut batch = vec![
        Event::PointerMoved(pos),
        press(PointerButton::Primary, pos),
        release(PointerButton::Primary, pos),
    ];
    let mut deferred = Vec::new();
    split_same_frame_pointer_batches(&mut batch, &mut deferred);
    assert!(
        batch.iter().all(|e| matches!(e, Event::PointerMoved(_))),
        "{label}: frame N must be move-only"
    );
    assert!(deferred.iter().any(is_primary_press), "{label}: press deferred");
    assert!(deferred.iter().any(is_primary_release), "{label}: release deferred");

    let mut clicks = show(&ctx, &mut t, label, batch, false);
    let mut n1_events = deferred;
    let mut deferred2 = Vec::new();
    split_same_frame_pointer_batches(&mut n1_events, &mut deferred2);
    clicks += show(&ctx, &mut t, label, n1_events, false);
    clicks += show(&ctx, &mut t, label, deferred2, false);
    clicks
}

#[test]
fn same_frame_teleport_after_latch_is_three_frames_and_one_click() {
    assert_eq!(latched_teleport_clicks("[ HOST A GAME ]"), 1);
}

#[test]
fn each_menu_button_label_one_latched_teleport_click() {
    let labels = [
        "[ HOST A GAME ]",
        "[ JOIN ]",
        "[ START ]",
        "[ LEAVE ]",
        "URBAN",
        "MOUNTAIN",
        "DESERT",
        "SEA",
        "ROME EUR",
        "[ COPY LINK ]",
    ];
    for label in labels {
        assert_eq!(
            latched_teleport_clicks(label),
            1,
            "{label}: latched teleport click must fire exactly once"
        );
    }
}

// ---- against the engine's input components ----------------------------------------

/// One frame of the latch over every GUI input in the world.
fn latch_frame(world: &mut World, latch: &mut EguiClickLatch<Pos2>) {
    let mut query = world.query::<(Entity, &mut EguiInput)>();
    let mut contexts: Vec<(u64, Vec<Ev>)> = Vec::new();
    for (entity, input) in query.iter(world) {
        contexts.push((entity.to_bits(), input.events.iter().map(from_gui).collect()));
    }
    latch.latch_pointer_event_order(&mut contexts);
    for (bits, events) in contexts {
        let entity = Entity::from_bits(bits);
        let mut input = world.get_mut::<EguiInput>(entity).unwrap();
        input.events = events.into_iter().map(to_gui).collect();
    }
}

fn events_of(world: &World, entity: Entity) -> Vec<Ev> {
    world.get::<EguiInput>(entity).unwrap().events.iter().map(from_gui).collect()
}

fn clear_events(world: &mut World, entity: Entity) {
    world.get_mut::<EguiInput>(entity).unwrap().events.clear();
}

fn input_with(events: Vec<Ev>) -> EguiInput {
    EguiInput(RawInput { events: events.into_iter().map(to_gui).collect(), ..Default::default() })
}

#[test]
fn bevy_latch_system_stages_teleport_across_three_frames() {
    let mut world = World::new();
    let mut latch: EguiClickLatch<Pos2> = EguiClickLatch::new();
    let pos = Pos2::new(64.0, 32.0);
    let entity = world
        .spawn(input_with(vec![
            Event::PointerMoved(pos),
            press(PointerButton::Primary, pos),
            release(PointerButton::Primary, pos),
        ]))
        .id();

    latch_frame(&mut world, &mut latch);
    let events = events_of(&world, entity);
    assert!(events.iter().all(|e| matches!(e, Event::PointerMoved(_))), "frame N: move only");
    assert!(!events.iter().any(is_primary_press), "press deferred off frame N");
    assert_eq!(latch.deferred.len(), 2, "press + release queued");

    clear_events(&mut world, entity);
    latch_frame(&mut world, &mut latch);
    let events = events_of(&world, entity);
    assert_eq!(events.len(), 1, "press injected");
    assert!(is_primary_press(&events[0]));
    assert_eq!(latch.deferred.len(), 1, "release still queued");

    clear_events(&mut world, entity);
    latch_frame(&mut world, &mut latch);
    let events = events_of(&world, entity);
    assert_eq!(events.len(), 1, "deferred release injected");
    assert!(is_primary_release(&events[0]));
    assert!(latch.deferred.is_empty(), "latch drained");
}

#[test]
fn bevy_latch_system_defers_release_one_frame() {
    let mut world = World::new();
    let mut latch: EguiClickLatch<Pos2> = EguiClickLatch::new();
    let pos = Pos2::new(64.0, 32.0);
    let entity = world
        .spawn(input_with(vec![
            press(PointerButton::Primary, pos),
            release(PointerButton::Primary, pos),
        ]))
        .id();

    latch_frame(&mut world, &mut latch);
    let events = events_of(&world, entity);
    assert!(events.iter().any(is_primary_press), "press remains frame N");
    assert!(!events.iter().any(is_primary_release), "release deferred off frame N");
    assert_eq!(latch.deferred.len(), 1);

    clear_events(&mut world, entity);
    latch_frame(&mut world, &mut latch);
    let events = events_of(&world, entity);
    assert_eq!(events.len(), 1, "deferred release injected");
    assert!(is_primary_release(&events[0]));
    assert!(latch.deferred.is_empty(), "latch drained");
}

/// Turns cursor and button messages into GUI events at the cached position.
fn write_pointer_messages(world: &mut World, entity: Entity) {
    let moves: Vec<CursorMoved> = world.resource_mut::<Messages<CursorMoved>>().drain().collect();
    let buttons: Vec<MouseButtonInput> =
        world.resource_mut::<Messages<MouseButtonInput>>().drain().collect();
    for msg in moves {
        let pos = Pos2::new(msg.position.x, msg.position.y);
        world.get_mut::<EguiContextPointerPosition>(entity).unwrap().position = pos;
        world.get_mut::<EguiInput>(entity).unwrap().events.push(egui::Event::PointerMoved(pos));
    }
    for msg in buttons {
        let button = match msg.button {
            MouseButton::Left => egui::PointerButton::Primary,
            MouseButton::Right => egui::PointerButton::Secondary,
            MouseButton::Middle => egui::PointerButton::Middle,
            MouseButton::Back => egui::PointerButton::Extra1,
            MouseButton::Forward => egui::PointerButton::Extra2,
            _ => continue,
        };
        let pos = world.get::<EguiContextPointerPosition>(entity).unwrap().position;
        let pressed = matches!(msg.state, ButtonState::Pressed);
        world.get_mut::<EguiInput>(entity).unwrap().events.push(egui::Event::PointerButton {
            pos,
            button,
            pressed,
            modifiers: Modifiers::NONE,
        });
    }
}

#[test]
fn bevy_messages_teleport_click_stages_through_latch() {
    let mut world = World::new();
    let mut latch: EguiClickLatch<Pos2> = EguiClickLatch::new();
    world.init_resource::<Messages<CursorMoved>>();
    world.init_resource::<Messages<MouseButtonInput>>();
    let window = world.spawn_empty().id();
    let entity = world
        .spawn((
            EguiInput(RawInput::default()),
            EguiContextPointerPosition { position: Pos2::new(1.0, 1.0) },
        ))
        .id();

    let btn_pos = Vec2::new(320.0, 240.0);
    world.write_message(CursorMoved { window, position: btn_pos, delta: None });
    world.write_message(MouseButtonInput {
        window,
        button: MouseButton::Left,
        state: ButtonState::Pressed,
    });
    world.write_message(MouseButtonInput {
        window,
        button: MouseButton::Left,
        state: ButtonState::Released,
    });

    write_pointer_messages(&mut world, entity);
    latch_frame(&mut world, &mut latch);
    let events = events_of(&world, entity);
    assert!(
        events.iter().any(|e| matches!(e, Event::PointerMoved(p) if p.x == btn_pos.x)),
        "CursorMoved must become PointerMoved on the button"
    );
    assert!(!events.iter().any(is_primary_press), "press must not share the move frame");
    assert!(!events.iter().any(is_primary_release), "release must not share the move frame");
    assert!(latch.deferred.iter().any(|(_, e)| is_primary_press(e)), "press deferred");
    assert!(latch.deferred.iter().any(|(_, e)| is_primary_release(e)), "release deferred");
    let ptr = world.get::<EguiContextPointerPosition>(entity).unwrap();
    assert_eq!(ptr.position, Pos2::new(btn_pos.x, btn_pos.y));

    clear_events(&mut world, entity);
    write_pointer_messages(&mut world, entity);
    latch_frame(&mut world, &mut latch);
    let events = events_of(&world, entity);
    assert!(events.iter().any(is_primary_press), "press on frame N+1");
    assert!(!events.iter().any(is_primary_release), "release still deferred");

    clear_events(&mut world, entity);
    write_pointer_messages(&mut world, entity);
    latch_frame(&mut world, &mut latch);
    let events = events_of(&world, entity);
    assert!(events.iter().any(is_primary_release), "release on frame N+2");
    assert!(latch.deferred.is_empty());
}

// ---- more of the latch ------------------------------------------------------------

fn num_press(button: PointerButton, n: u32) -> Event<u32> {
    Event::PointerButton { button, pressed: true, detail: n }
}

fn num_release(button: PointerButton, n: u32) -> Event<u32> {
    Event::PointerButton { button, pressed: false, detail: n }
}

#[test]
fn every_button_has_its_own_slot() {
    let all = [
        PointerButton::Primary,
        PointerButton::Secondary,
        PointerButton::Middle,
        PointerButton::Extra1,
        PointerButton::Extra2,
    ];
    assert_eq!(all.len(), POINTER_BUTTON_COUNT);
    for (i, b) in all.into_iter().enumerate() {
        assert_eq!(pointer_button_index(b), Some(i));
    }
}

#[test]
fn split_keeps_every_event_in_order() {
    let mut events = vec![
        Event::Other(0),
        Event::PointerMoved(1),
        num_release(PointerButton::Primary, 2),
        num_press(PointerButton::Primary, 3),
        Event::Other(4),
        num_release(PointerButton::Primary, 5),
        num_release(PointerButton::Middle, 6),
    ];
    let mut deferred = vec![Event::Other(99)];
    split_same_frame_pointer_batches(&mut events, &mut deferred);
    assert_eq!(
        events,
        vec![
            Event::Other(0),
            Event::PointerMoved(1),
            Event::Other(4),
            num_release(PointerButton::Middle, 6),
        ]
    );
    assert_eq!(
        deferred,
        vec![
            Event::Other(99),
            num_release(PointerButton::Primary, 2),
            num_press(PointerButton::Primary, 3),
            num_release(PointerButton::Primary, 5),
        ]
    );
}

#[test]
fn contexts_do_not_mix() {
    let mut latch: EguiClickLatch<u32> = EguiClickLatch::new();
    let mut contexts = vec![
        (7u64, vec![num_press(PointerButton::Primary, 1), num_release(PointerButton::Primary, 2)]),
        (8u64, vec![Event::PointerMoved(3)]),
    ];
    latch.latch_pointer_event_order(&mut contexts);
    assert_eq!(contexts[0].1, vec![num_press(PointerButton::Primary, 1)]);
    assert_eq!(contexts[1].1, vec![Event::PointerMoved(3)]);
    let mut next = vec![(8u64, vec![]), (7u64, vec![Event::Other(4)])];
    latch.latch_pointer_event_order(&mut next);
    assert_eq!(next[0].1, vec![]);
    assert_eq!(next[1].1, vec![num_release(PointerButton::Primary, 2), Event::Other(4)]);
    assert!(latch.deferred.is_empty());
}

#[test]
fn vanished_contexts_drop_their_events() {
    let mut latch: EguiClickLatch<u32> = EguiClickLatch::new();
    let mut contexts = vec![(
        7u64,
        vec![num_press(PointerButton::Primary, 1), num_release(PointerButton::Primary, 2)],
    )];
    latch.latch_pointer_event_order(&mut contexts);
    assert_eq!(latch.deferred.len(), 1);
    let mut others = vec![(8u64, vec![Event::Other(3)])];
    latch.latch_pointer_event_order(&mut others);
    assert_eq!(others[0].1, vec![Event::Other(3)]);
    assert!(latch.deferred.is_empty());
    let mut back = vec![(7u64, vec![])];
    latch.latch_pointer_event_order(&mut back);
    assert_eq!(back[0].1, vec![]);
}
