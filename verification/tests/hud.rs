//! What the display shows.

use std::collections::VecDeque;

use zz_client::game::Session;
use zz_client::hud::{
    death_banner, fx_done, gate_visibility, hud_bottom_inset, initial_label, loot_shape,
    muzzle_for_slot, pause_key, paused_overlay, stats_back_button, sync_flight_grenades, sync_loot,
    update_mic_chip, update_stats_overlay, update_teammates, update_top_left, update_vitals,
    Crosshair, Follow, FxKind, HudLocal, HudPart, Interaction, LootShape, Measures, MicChip,
    MuzzleSource,
};
use zz_client::scalar::F32;
use zz_client::seams::VisualEvent;
use zz_client::voice::VoiceState;
use zz_client::wire::{
    MatchStats, PlayerStats, QPos, Snapshot, WireGrenade, WireLoot, WirePlayer, WireZombie,
};

const PLAYING: Session = Session::Playing { my_slot: 0 };

fn key(v: f32) -> F32 {
    F32::from_bits(v.to_bits())
}

fn row(slot: u8) -> WirePlayer {
    WirePlayer {
        slot,
        pos: QPos { x: 0, y: 0, z: 0 },
        yaw: 0,
        pitch: 0,
        health: 87,
        ammo_mag: 12,
        ammo_reserve: 90,
        grenades: 3,
        kills: 41,
        alive: true,
        last_acked_seq: 0,
    }
}

fn snap(players: Vec<WirePlayer>) -> Snapshot {
    Snapshot {
        tick: 1,
        game_time_ms: 0,
        difficulty: 4,
        paused: false,
        players,
        zombies: vec![WireZombie { id: 1, kind: 0, state: 0, pos: QPos { x: 0, y: 0, z: 0 }, yaw: 0 }; 7],
        loot: vec![],
        grenades: vec![],
        shots: vec![],
        booms: vec![],
    }
}

fn shot(hit_kind: u8, from_me: bool) -> VisualEvent {
    VisualEvent::Shot { slot: 0, end: QPos { x: 0, y: 0, z: 0 }, hit_kind, from_me }
}

#[test]
fn panels_follow_the_session() {
    let g = gate_visibility(PLAYING);
    assert!(g.chrome && g.crosshair && g.fx && !g.stats && !g.hide_overlays);
    let e = gate_visibility(Session::Ended { my_slot: 0 });
    assert!(e.stats && !e.chrome && e.hide_overlays);
    let m = gate_visibility(Session::Menu);
    assert!(!m.stats && !m.chrome && !m.fx);
    assert_eq!((hud_bottom_inset(true), hud_bottom_inset(false)), (200, 28));
    assert!(pause_key(PLAYING, true) && !pause_key(Session::Menu, true) && !pause_key(PLAYING, false));
}

#[test]
fn vitals_are_rendered() {
    let v = update_vitals(PLAYING, &Some(snap(vec![row(1), row(0)]))).unwrap();
    assert_eq!((v.health.as_str(), v.ammo.as_str()), ("87", "12 / 90"));
    assert_eq!(v.grenades.chars().count(), 3);
    assert_eq!(update_vitals(PLAYING, &Some(snap(vec![row(1)]))), None);
    assert_eq!(update_vitals(Session::Menu, &Some(snap(vec![row(0)]))), None);
    let t = update_top_left(PLAYING, &Some(snap(vec![row(0)]))).unwrap();
    assert_eq!(t.kills, "KILLS 41");
    assert_eq!(t.zombies, "ZEDS 7");
    assert_eq!(t.wave, "WAVE 5");
    assert_eq!(update_top_left(PLAYING, &Some(snap(vec![]))).unwrap().kills, "KILLS 0");
    assert_eq!(update_top_left(PLAYING, &None), None);
}

#[test]
fn overlays_follow_the_snapshot() {
    let mut s = snap(vec![row(0)]);
    assert!(!paused_overlay(&None) && !paused_overlay(&Some(snap(vec![]))));
    assert_eq!(death_banner(PLAYING, &Some(snap(vec![row(0)]))), Some(false));
    s.players[0].alive = false;
    s.paused = true;
    let latest = Some(s);
    assert!(paused_overlay(&latest));
    assert_eq!(death_banner(PLAYING, &latest), Some(true));
    assert_eq!(death_banner(Session::Menu, &latest), None);
}

#[test]
fn losing_health_shows_once() {
    let mut local = HudLocal::default();
    let at = |health: u8| {
        let mut r = row(0);
        r.health = health;
        Some(snap(vec![r]))
    };
    assert!(!local.observe_health(PLAYING, &at(100)));
    assert!(local.observe_health(PLAYING, &at(60)));
    assert!(!local.observe_health(PLAYING, &at(60)));
    assert!(!local.observe_health(PLAYING, &at(90)));
    assert!(!local.reset_hud_on_match_start(PLAYING, false));
    assert!(local.reset_hud_on_match_start(PLAYING, true));
    assert!(!local.observe_health(PLAYING, &at(10)), "a new match starts fresh");
}

#[test]
fn own_hits_light_the_crosshair() {
    let mut local = HudLocal::default();
    let mut q: VecDeque<VisualEvent> = VecDeque::from(vec![shot(2, true), shot(0, true), shot(3, false)]);
    let (events, hit) = local.drain_fx(&mut q);
    assert!(q.is_empty() && events.len() == 3 && hit);
    assert_eq!(local.update_crosshair(key(0.1)), Crosshair::Kill);
    assert_eq!(local.update_crosshair(key(0.0)), Crosshair::Idle);
    let (_, hit) = local.drain_fx(&mut VecDeque::from(vec![shot(1, true)]));
    assert!(hit);
    assert_eq!(local.update_crosshair(key(0.1)), Crosshair::Hit);
    let (_, hit) = local.drain_fx(&mut VecDeque::from(vec![shot(1, false)]));
    assert!(!hit);
}

#[test]
fn effects_last_their_time() {
    assert!(!fx_done(FxKind::Tracer, key(0.079)) && fx_done(FxKind::Tracer, key(0.08)));
    assert!(!fx_done(FxKind::Spark, key(0.149)) && fx_done(FxKind::Spark, key(0.15)));
    assert!(!fx_done(FxKind::Boom, key(0.349)) && fx_done(FxKind::Boom, key(0.35)));
}

#[test]
fn tracers_start_at_the_right_muzzle() {
    let latest = Some(snap(vec![row(1), row(2)]));
    assert_eq!(muzzle_for_slot(2, false, Some(0), &latest), MuzzleSource::Row(1));
    assert_eq!(muzzle_for_slot(0, false, Some(0), &latest), MuzzleSource::Own);
    assert_eq!(muzzle_for_slot(9, true, None, &latest), MuzzleSource::Own);
    assert_eq!(muzzle_for_slot(9, false, Some(0), &latest), MuzzleSource::Nowhere);
    assert_eq!(muzzle_for_slot(2, false, Some(0), &None), MuzzleSource::Nowhere);
}

#[test]
fn the_chip_tells_the_microphone() {
    let mut v = VoiceState::default();
    assert_eq!(update_mic_chip(&v), (MicChip::Muted, "MIC · MUTED"));
    v.muted = false;
    assert_eq!(update_mic_chip(&v), (MicChip::Waiting, "MIC · …"));
    v.mic_ready = true;
    assert_eq!(update_mic_chip(&v).0, MicChip::On);
    v.self_live = true;
    assert_eq!(update_mic_chip(&v), (MicChip::Live, "MIC · LIVE"));
    v.mic_denied = true;
    assert_eq!(update_mic_chip(&v), (MicChip::Denied, "MIC · DENIED"));
}

#[test]
fn first_labels() {
    assert_eq!(initial_label(HudPart::Health), "100");
    assert_eq!(initial_label(HudPart::StatsTitle), "OVERRUN");
    assert_eq!(initial_label(HudPart::BackButton), "[ BACK TO LOBBY ]");
    assert_eq!(initial_label(HudPart::Grenades), "");
}

#[test]
fn teammates_follow_the_roster() {
    let roster = vec![
        (0u8, "me".to_string(), true),
        (1, "ann".to_string(), false),
        (2, "bob".to_string(), false),
    ];
    let mut dead = row(1);
    dead.alive = false;
    let plan = update_teammates(PLAYING, &Some(snap(vec![row(0), dead])), &roster, &vec![7, 1]).unwrap();
    assert_eq!(plan.gone, vec![0]);
    assert_eq!(plan.spawns, vec![2]);
    assert_eq!(plan.refresh.len(), 1);
    assert_eq!((plan.refresh[0].row, plan.refresh[0].name.as_str(), plan.refresh[0].dead), (1, "ann", true));
    assert_eq!(update_teammates(PLAYING, &None, &roster, &vec![]), None);
}

#[test]
fn statistics_are_listed() {
    let player = |slot: u8, name: &str| PlayerStats {
        slot,
        name: name.to_string(),
        kills: 5,
        damage_dealt: 120,
        shots_fired: 10,
        hits: 5,
        grenades_thrown: 0,
        time_alive_ms: 30_000,
    };
    let stats = Some(MatchStats {
        duration_ms: 37_000,
        zombies_killed: 25,
        peak_zombies: 12,
        difficulty_reached: 2,
        players: vec![player(0, "me"), player(3, ""), player(4, "")],
    });
    let measures: Vec<Measures> = (0..3)
        .map(|_| Measures { accuracy: "50".to_string(), alive_s: "30".to_string() })
        .collect();
    let roster = vec![(3u8, "cat".to_string(), false)];
    let plan = update_stats_overlay(&stats, &"37".to_string(), &measures, &roster, &vec![9, 3]);
    assert_eq!(plan.header, "37s  ·  25 zombies killed  ·  peak horde 12  ·  wave 3");
    assert_eq!(plan.gone, vec![0]);
    assert_eq!(plan.rows[0].text, "me  ·  K 5  ·  DMG 120  ·  ACC 50%  ·  30s");
    assert_eq!(plan.rows[0].row, None);
    assert!(plan.rows[1].text.starts_with("cat  ·"));
    assert_eq!(plan.rows[1].row, Some(1));
    assert!(plan.rows[2].text.starts_with("P4  ·"));
    let none = update_stats_overlay(&None, &String::new(), &vec![], &roster, &vec![9, 3]);
    assert_eq!((none.header.as_str(), none.gone, none.rows.len()), ("…", vec![0, 1], 0));
}

#[test]
fn back_button_acts_once_per_press() {
    let mut was = false;
    assert!(stats_back_button(Interaction::Pressed, &mut was));
    assert!(!stats_back_button(Interaction::Pressed, &mut was));
    assert!(!stats_back_button(Interaction::Hovered, &mut was));
    assert!(stats_back_button(Interaction::Pressed, &mut was));
    assert!(!stats_back_button(Interaction::Away, &mut was));
}

#[test]
fn markers_follow_loot_and_grenades() {
    assert_eq!(loot_shape(0), LootShape::Ammo);
    assert_eq!(loot_shape(1), LootShape::Health);
    assert_eq!(loot_shape(9), LootShape::Grenade);
    let mut s = snap(vec![]);
    let pos = QPos { x: 0, y: 0, z: 0 };
    s.loot = vec![WireLoot { id: 5, kind: 0, pos }, WireLoot { id: 6, kind: 1, pos }];
    s.grenades = vec![WireGrenade { id: 2, pos }];
    let latest = Some(s);
    let plan = sync_loot(&vec![4, 5], &latest);
    assert_eq!(plan.follow, vec![Follow { entity: 1, row: 0 }]);
    assert_eq!(plan.gone, vec![0]);
    assert_eq!(plan.spawns, vec![1]);
    let plan = sync_flight_grenades(&vec![2], &latest);
    assert_eq!(plan.follow, vec![Follow { entity: 0, row: 0 }]);
    assert!(plan.gone.is_empty() && plan.spawns.is_empty());
    assert_eq!(sync_flight_grenades(&vec![2], &None).gone, vec![0]);
}
