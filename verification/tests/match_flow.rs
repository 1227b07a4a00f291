//! A match from lobby to rematch, as the session sees it.

use std::collections::VecDeque;

use zz_client::game::{
    find_row, frees_cursor, hide_horde_on_ended, in_match, menu_active, playing,
    refocus_on_playing, ui_active, ClientState, Effect, Session, VOICE_INBOX_CAP,
};
use zz_client::hud::gate_visibility;
use zz_client::intents::Action;
use zz_client::map_render::BuiltMapKey;
use zz_client::net::{NetClient, NetEvent, NetStep};
use zz_client::predict::{
    merge_controls, Controls, KeyState, Predicted, ERROR_CLAMP_BITS, PENDING_CAP,
};
use zz_client::remotes::{
    hit_flash_target, interp_into, plan_players, plan_zombies, push_sample, Pose, RemotePlayer,
    RemoteZombie, Sample, Upsert, SAMPLE_CAP,
};
use zz_client::scalar::{F32, F64};
use zz_client::seams::{LobbyView, Sfx, UiIntent, VisualEvent};
use zz_client::touch::TouchIntent;
use zz_client::wire::{
    ClientMsg, EnvKind, LobbyPlayer, MatchStats, PlayerStats, QPos, RosterPlayer, ServerMsg,
    Snapshot, WireBoom, WirePlayer, WireShot, WireZombie,
};

fn key(v: f32) -> F32 {
    F32::from_bits(v.to_bits())
}

fn time(v: f64) -> F64 {
    F64::from_bits(v.to_bits())
}

fn state() -> ClientState {
    ClientState::new(LobbyView::for_name("tester".to_string()))
}

fn game_start(seed: &str, slot: u8) -> NetEvent {
    NetEvent::Msg(ServerMsg::GameStart {
        map_seed: seed.to_string(),
        env: EnvKind::Urban,
        your_slot: slot,
        players: vec![
            RosterPlayer { slot, name: "tester".to_string() },
            RosterPlayer { slot: slot + 1, name: "mate".to_string() },
        ],
    })
}

fn row(slot: u8, acked: u32) -> WirePlayer {
    WirePlayer {
        slot,
        pos: QPos { x: 0, y: 0, z: 0 },
        yaw: 0,
        pitch: 0,
        health: 100,
        ammo_mag: 30,
        ammo_reserve: 90,
        grenades: 2,
        kills: 0,
        alive: true,
        last_acked_seq: acked,
    }
}

fn zombie(id: u16) -> WireZombie {
    WireZombie { id, kind: 0, state: 0, pos: QPos { x: id as i16, y: 0, z: 0 }, yaw: 0 }
}

fn snap(players: Vec<WirePlayer>, zombies: Vec<WireZombie>) -> Snapshot {
    Snapshot {
        tick: 1,
        game_time_ms: 33,
        difficulty: 0,
        paused: false,
        players,
        zombies,
        loot: vec![],
        grenades: vec![],
        shots: vec![],
        booms: vec![],
    }
}

fn stats() -> MatchStats {
    MatchStats {
        duration_ms: 37_000,
        zombies_killed: 25,
        peak_zombies: 25,
        difficulty_reached: 0,
        players: vec![PlayerStats {
            slot: 0,
            name: "tester".to_string(),
            kills: 0,
            damage_dealt: 0,
            shots_fired: 0,
            hits: 0,
            grenades_thrown: 0,
            time_alive_ms: 53_000,
        }],
    }
}

fn poll(c: &mut ClientState, ev: NetEvent) -> Effect {
    c.net_poll(ev, &vec![], &vec![])
}

fn idle() -> Controls {
    Controls {
        forward: false,
        backward: false,
        left: false,
        right: false,
        jump: false,
        fire: false,
        grenade: false,
        interact: false,
    }
}

#[test]
fn game_start_builds_map_and_shows_hud() {
    let mut c = state();
    c.session = Session::Menu;
    let mut built = BuiltMapKey::default();
    assert!(!gate_visibility(c.session).chrome);
    let effect = poll(&mut c, game_start("match-flow-s1", 0));
    match effect {
        Effect::MatchStarted { map_seed, env } => {
            assert!(built.needs_rebuild(&map_seed, env, false, true, true));
            built.mark_built(&map_seed, env);
            assert!(!built.needs_rebuild(&map_seed, env, true, false, false));
        }
        other => panic!("{other:?}"),
    }
    assert_eq!(c.session, Session::Playing { my_slot: 0 });
    let gate = gate_visibility(c.session);
    assert!(gate.chrome && gate.crosshair && gate.fx && !gate.stats);
    assert_eq!(c.roster[0], (0, "tester".to_string(), true));
    assert_eq!(c.roster[1], (1, "mate".to_string(), false));
}

#[test]
fn rematch_wipes_stale_horde_stats_and_rebuilds_map() {
    let mut c = state();
    c.session = Session::InLobby;
    poll(&mut c, game_start("match-flow-a", 0));
    poll(&mut c, NetEvent::Snap(snap(vec![row(0, 0)], (0..12).map(zombie).collect())));
    poll(&mut c, NetEvent::Msg(ServerMsg::MatchEnd { stats: stats() }));
    assert_eq!(c.session, Session::Ended { my_slot: 0 });
    assert_eq!(c.last_stats, Some(stats()));
    assert_eq!(c.sfx.back(), Some(&Sfx::TeamWipe));
    assert!(!c.cleanup_match_visuals(true), "statistics keep the frozen world");

    let mut actions = Vec::new();
    c.process_intent(UiIntent::BackToLobby, &mut actions);
    assert_eq!(c.session, Session::InLobby);
    assert!(c.cleanup_match_visuals(true), "remotes are removed on leave");
    assert!(c.last_stats.is_none() && c.latest.is_none() && c.fx.is_empty());

    let mut built = BuiltMapKey::default();
    built.mark_built(&"match-flow-a".to_string(), EnvKind::Urban);
    match poll(&mut c, game_start("match-flow-b", 0)) {
        Effect::MatchStarted { map_seed, env } => {
            assert!(built.needs_rebuild(&map_seed, env, true, false, false));
        }
        other => panic!("{other:?}"),
    }
    assert_eq!(c.session, Session::Playing { my_slot: 0 });
    assert!(c.last_stats.is_none() && c.latest.is_none() && !c.predicted.is_synced());
    assert!(gate_visibility(c.session).chrome);
}

#[test]
fn game_start_snapshot_syncs_and_queues_input() {
    let mut c = state();
    c.session = Session::InLobby;
    let mut net = NetClient::disconnected();
    net.inject(game_start("match-flow-input", 0));
    net.inject(NetEvent::Snap(snap(vec![row(0, 0)], vec![])));
    net.take_outbound_bin();
    assert!(c.predicted.sample_inputs(1, idle(), key(0.0), key(0.0)).is_empty());
    let mut first = None;
    for step in net.drain(vec![], 3) {
        match step {
            NetStep::Emit(ev) => {
                if let Effect::SnapshotApplied(plan) = poll(&mut c, ev) {
                    assert_eq!(plan.my_row, Some(0));
                    first = plan.reconcile.map(|r| r.first);
                }
            }
            other => panic!("{other:?}"),
        }
    }
    assert_eq!(first, Some(true), "the first sample seeds prediction");
    assert!(c.predicted.is_synced());
    let inputs = c.predicted.sample_inputs(2, idle(), key(0.5), key(-0.25));
    assert_eq!(inputs.iter().map(|i| i.seq).collect::<Vec<u32>>(), vec![1, 2]);
    assert_eq!(inputs[1].yaw, key(0.5));
    for i in &inputs {
        net.send_bin(i.seq.to_le_bytes().to_vec());
    }
    assert_eq!(net.take_outbound_bin().len(), 2);
    assert_eq!(c.session, Session::Playing { my_slot: 0 });
}

#[test]
fn late_match_end_is_ignored() {
    let mut c = state();
    c.session = Session::InLobby;
    poll(&mut c, NetEvent::Msg(ServerMsg::MatchEnd { stats: stats() }));
    assert_eq!(c.session, Session::InLobby);
    assert!(c.last_stats.is_none() && c.sfx.is_empty());
}

#[test]
fn connecting_leads_to_the_menu_and_the_lobby() {
    let mut c = state();
    assert!(c.wants_connection());
    c.connect_on_start(false);
    assert_eq!(c.session, Session::Boot);
    c.connect_on_start(true);
    assert_eq!(c.session, Session::Connecting);
    poll(&mut c, NetEvent::Connected);
    assert_eq!(c.session, Session::Menu);
    poll(&mut c, NetEvent::Msg(ServerMsg::Welcome { player_id: "c1".to_string() }));
    poll(
        &mut c,
        NetEvent::Msg(ServerMsg::LobbyState {
            code: "ABCD".to_string(),
            host_id: "c1".to_string(),
            players: vec![
                LobbyPlayer { id: "c1".to_string(), name: "tester".to_string() },
                LobbyPlayer { id: "c2".to_string(), name: "mate".to_string() },
            ],
            env: EnvKind::SeaTown,
            invite_url: None,
        }),
    );
    assert_eq!(c.session, Session::InLobby);
    assert!(c.lobby_view.is_host);
    assert_eq!(c.lobby_view.players[0], ("tester".to_string(), true, true));
    assert_eq!(c.lobby_view.players[1], ("mate".to_string(), false, false));
    poll(&mut c, NetEvent::Msg(ServerMsg::Error { message: "full".to_string() }));
    assert_eq!(c.lobby_view.status, "full");
    poll(&mut c, NetEvent::Closed("gone".to_string()));
    assert_eq!(c.session, Session::Boot);
    assert_eq!(c.lobby_view.status, "disconnected: gone");
    assert_eq!(poll(&mut c, NetEvent::Msg(ServerMsg::Other)), Effect::Nothing);
    assert_eq!(poll(&mut c, NetEvent::Msg(ServerMsg::Ping { t: 1 })), Effect::Nothing);
}

#[test]
fn session_predicates() {
    let p = Session::Playing { my_slot: 2 };
    let e = Session::Ended { my_slot: 2 };
    assert_eq!((p.my_slot(), e.my_slot(), Session::Menu.my_slot()), (Some(2), Some(2), None));
    assert!(in_match(p) && in_match(e) && !in_match(Session::Menu));
    assert!(playing(p) && !playing(e));
    assert!(menu_active(Session::Boot) && !menu_active(e));
    assert!(ui_active(e) && ui_active(Session::InLobby) && !ui_active(p));
    assert!(frees_cursor(e, true) && !frees_cursor(e, false) && !frees_cursor(p, true));
    assert!(refocus_on_playing(p, true) && !refocus_on_playing(e, true));
    assert!(hide_horde_on_ended(e, true) && !hide_horde_on_ended(p, true));
    assert_eq!(Session::default(), Session::Boot);
}

#[test]
fn snapshots_make_sounds_and_effects() {
    let mut c = state();
    poll(&mut c, game_start("s", 0));
    let mut s = snap(vec![row(0, 0), row(1, 0)], vec![]);
    s.shots = vec![
        WireShot { slot: 0, end: QPos { x: 1, y: 2, z: 3 }, hit_kind: 1 },
        WireShot { slot: 0, end: QPos { x: 4, y: 5, z: 6 }, hit_kind: 3 },
        WireShot { slot: 1, end: QPos { x: 0, y: 0, z: 0 }, hit_kind: 2 },
        WireShot { slot: 0, end: QPos { x: 0, y: 0, z: 0 }, hit_kind: 0 },
    ];
    s.booms = vec![WireBoom { pos: QPos { x: 9, y: 9, z: 9 }, dist: key(3.0) }];
    match poll(&mut c, NetEvent::Snap(s)) {
        Effect::SnapshotApplied(plan) => {
            assert_eq!(plan.own_hits, 2);
            assert_eq!(plan.players.upserts, vec![Upsert::Spawn { row: 1 }]);
        }
        other => panic!("{other:?}"),
    }
    let sounds: Vec<Sfx> = c.sfx.iter().copied().collect();
    assert_eq!(
        sounds,
        vec![
            Sfx::Shoot { from_me: true },
            Sfx::HitConfirm,
            Sfx::Shoot { from_me: true },
            Sfx::KillConfirm { headshot: true },
            Sfx::Shoot { from_me: false },
            Sfx::Shoot { from_me: true },
            Sfx::Explosion { dist: key(3.0) },
            Sfx::Pickup,
        ]
    );
    assert_eq!(c.fx.len(), 5);
    assert_eq!(c.fx[4], VisualEvent::Boom { pos: QPos { x: 9, y: 9, z: 9 } });
    assert!(c.take_kicks());
    assert!(!c.take_kicks());
    assert_eq!(
        c.take_hit_ends(),
        vec![QPos { x: 1, y: 2, z: 3 }, QPos { x: 4, y: 5, z: 6 }]
    );
    assert!(c.take_hit_ends().is_empty());

    c.sfx.clear();
    let mut hurt = row(0, 0);
    hurt.health = 40;
    poll(&mut c, NetEvent::Snap(snap(vec![hurt], vec![])));
    assert_eq!(c.sfx, VecDeque::from(vec![Sfx::Hurt]));
}

#[test]
fn voice_inbox_keeps_the_newest() {
    let mut c = state();
    for k in 0..(VOICE_INBOX_CAP + 5) {
        poll(&mut c, NetEvent::Voice { slot: 1, pcm: vec![k as u8] });
    }
    assert_eq!(c.voice_rx.len(), VOICE_INBOX_CAP);
    assert_eq!(c.voice_rx[0], (1, vec![5]));
}

#[test]
fn acknowledged_inputs_leave_the_queue() {
    let mut p = Predicted::default();
    assert!(p.adopt(0).first);
    p.sample_inputs(5, idle(), key(0.0), key(0.0));
    assert_eq!(p.pending_len(), 5);
    let r = p.adopt(3);
    assert!(!r.first);
    assert_eq!(r.replay.iter().map(|i| i.seq).collect::<Vec<u32>>(), vec![4, 5]);
    assert_eq!(p.adopt(1).replay.len(), 2, "older acknowledgements change nothing");
    p.sample_inputs(PENDING_CAP + 10, idle(), key(0.0), key(0.0));
    assert_eq!(p.pending_len(), PENDING_CAP);
}

#[test]
fn long_corrections_are_counted_and_logged_sparsely() {
    let mut p = Predicted::default();
    assert_eq!(f32::from_bits(ERROR_CLAMP_BITS), 2.0);
    assert!(!p.note_correction(key(2.0)));
    let logs: Vec<bool> = (0..60).map(|_| p.note_correction(key(2.5))).collect();
    let logged: Vec<usize> = logs.iter().enumerate().filter(|(_, l)| **l).map(|(i, _)| i + 1).collect();
    assert_eq!(logged, vec![1, 30, 60]);
}

#[test]
fn all_devices_steer() {
    let none = KeyState {
        w: false,
        arrow_up: false,
        s: false,
        arrow_down: false,
        a: false,
        arrow_left: false,
        d: false,
        arrow_right: false,
        space: false,
        g: false,
        e: false,
    };
    let off = TouchIntent::new(false);
    let keys = KeyState { arrow_up: true, a: true, e: true, ..none };
    let c = merge_controls(&keys, &off, true, true, true);
    assert!(c.forward && c.left && c.interact && c.jump && c.fire && !c.right && !c.grenade);
    assert!(!merge_controls(&none, &off, false, true, false).fire, "the pointer is not captured");
    let mut on = TouchIntent::new(true);
    assert!(!merge_controls(&none, &on, true, true, false).fire, "the mouse is a finger");
    on.fire = true;
    on.backward = true;
    let t = merge_controls(&none, &on, false, false, false);
    assert!(t.fire && t.backward);
}

#[test]
fn scene_follows_the_snapshot() {
    let plan = plan_players(&vec![1, 3], &vec![row(0, 0), row(1, 0), row(2, 0)], 0);
    assert_eq!(plan.upserts, vec![Upsert::Update { entity: 0, row: 1 }, Upsert::Spawn { row: 2 }]);
    assert_eq!(plan.gone, vec![1]);
    let plan = plan_zombies(&vec![5, 6], &vec![zombie(6), zombie(7)]);
    assert_eq!(plan.upserts, vec![Upsert::Update { entity: 1, row: 0 }, Upsert::Spawn { row: 1 }]);
    assert_eq!(plan.gone, vec![0]);
    assert_eq!(find_row(&vec![row(4, 0), row(2, 0)], 2), Some(1));
    assert_eq!(find_row(&vec![], 2), None);
}

fn sample(t: f64, x: i16) -> Sample {
    Sample { t: time(t), pos: QPos { x, y: 0, z: 0 }, yaw: 0 }
}

#[test]
fn remotes_are_shown_between_samples() {
    let mut buf: VecDeque<Sample> = VecDeque::new();
    assert_eq!(interp_into(&mut buf, time(0.0)), None);
    for k in 0..20 {
        push_sample(&mut buf, sample(k as f64, k));
    }
    assert_eq!(buf.len(), SAMPLE_CAP);
    assert_eq!(interp_into(&mut buf, time(1.0)), Some(Pose::Hold(sample(8.0, 8))));
    assert_eq!(
        interp_into(&mut buf, time(10.5)),
        Some(Pose::Between(sample(10.0, 10), sample(11.0, 11)))
    );
    assert_eq!(interp_into(&mut buf, time(50.0)), Some(Pose::Hold(sample(19.0, 19))));

    let mut p = RemotePlayer::new(3);
    p.absorb(&row(3, 0), time(1.0));
    assert_eq!((p.slot, p.buf.len()), (3, 1));
    let mut z = RemoteZombie::new(9, 0);
    z.absorb(&WireZombie { kind: 7, state: 1, ..zombie(9) }, time(1.0));
    assert_eq!((z.kind, z.state, z.buf[0].pos.x), (2, 1, 9));
}

#[test]
fn the_nearest_zombie_flashes() {
    assert_eq!(hit_flash_target(&vec![key(3.0), key(2.0), key(1.5)]), Some(2));
    assert_eq!(hit_flash_target(&vec![key(2.5), key(2.6)]), Some(0));
    assert_eq!(hit_flash_target(&vec![key(2.6)]), None);
}

#[test]
fn intents_become_messages() {
    let mut c = ClientState::new(LobbyView::for_name("  ".to_string()));
    c.session = Session::Menu;
    let actions = c.process_intents(VecDeque::from(vec![
        UiIntent::CreateLobby(EnvKind::RomeEur),
        UiIntent::SetName(" Ann ".to_string()),
        UiIntent::JoinLobby(" ab1 ".to_string()),
    ]));
    assert_eq!(
        actions,
        vec![
            Action::Send(ClientMsg::Hello { name: "survivor".to_string() }),
            Action::Send(ClientMsg::CreateLobby { env: EnvKind::RomeEur }),
            Action::PersistName(" Ann ".to_string()),
            Action::Send(ClientMsg::Hello { name: "Ann".to_string() }),
            Action::Send(ClientMsg::JoinLobby { code: "AB1".to_string() }),
        ]
    );
    assert_eq!(c.lobby_view.status, "joining…");
    assert_eq!(
        c.process_intents(VecDeque::from(vec![
            UiIntent::JoinLobby("\t".to_string()),
            UiIntent::JoinLobby("q-7 \n".to_string()),
        ])),
        vec![
            Action::Send(ClientMsg::Hello { name: "Ann".to_string() }),
            Action::Send(ClientMsg::JoinLobby { code: "Q-7".to_string() }),
        ]
    );
    assert!(c.process_intents(VecDeque::from(vec![UiIntent::JoinLobby("  ".to_string())])).is_empty());
    assert_eq!(c.lobby_view.status, "enter a lobby code");
    let mut actions = Vec::new();
    c.join_with(String::new(), &mut actions);
    assert!(actions.is_empty());
    assert_eq!(c.lobby_view.status, "enter a lobby code");
    c.join_with("QX7".to_string(), &mut actions);
    assert_eq!(actions.len(), 2);
    assert_eq!(actions[1], Action::Send(ClientMsg::JoinLobby { code: "QX7".to_string() }));
    assert_eq!(c.lobby_view.status, "joining…");
    c.session = Session::InLobby;
    let actions = c.process_intents(VecDeque::from(vec![
        UiIntent::SetEnv(EnvKind::Urban),
        UiIntent::StartGame,
        UiIntent::PauseToggle,
        UiIntent::LeaveLobby,
    ]));
    assert_eq!(
        actions,
        vec![
            Action::Send(ClientMsg::SetEnv { env: EnvKind::Urban }),
            Action::Send(ClientMsg::StartGame),
            Action::Send(ClientMsg::Pause),
            Action::Send(ClientMsg::LeaveLobby),
        ]
    );
    assert_eq!(c.session, Session::Menu);
    assert_eq!(c.lobby_view.name, " Ann ");
    poll(&mut c, game_start("s", 0));
    let mut paused = snap(vec![], vec![]);
    paused.paused = true;
    poll(&mut c, NetEvent::Snap(paused));
    assert_eq!(
        c.process_intents(VecDeque::from(vec![UiIntent::PauseToggle])),
        vec![Action::Send(ClientMsg::Resume)]
    );
}
