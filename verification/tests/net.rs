//! Connection bookkeeping.

use zz_client::net::{NetClient, NetEvent, NetStep, SocketEvent, OUTBOUND_CAP};
use zz_client::wire::{ClientMsg, EnvKind, ServerMsg};

const VOICE_TAG: u8 = 3;

fn game_start() -> ServerMsg {
    ServerMsg::GameStart {
        map_seed: "s".to_string(),
        env: EnvKind::Urban,
        your_slot: 1,
        players: vec![],
    }
}

#[test]
fn events_become_steps_in_order() {
    let mut net = NetClient::disconnected();
    assert!(net.connect(true));
    assert!(!net.is_connected());
    net.inject(NetEvent::Closed("synthetic".to_string()));
    let steps = net.drain(
        vec![
            SocketEvent::Opened,
            SocketEvent::Text(None),
            SocketEvent::Text(Some(ServerMsg::Ping { t: 7 })),
            SocketEvent::Text(Some(game_start())),
            SocketEvent::Binary(vec![VOICE_TAG, 1]),
            SocketEvent::Binary(vec![9]),
            SocketEvent::Binary(vec![]),
            SocketEvent::Control,
        ],
        VOICE_TAG,
    );
    assert!(net.is_connected());
    assert_eq!(
        steps,
        vec![
            NetStep::Emit(NetEvent::Closed("synthetic".to_string())),
            NetStep::Emit(NetEvent::Connected),
            NetStep::Reply(ClientMsg::Pong { t: 7 }),
            NetStep::ResetDecoder,
            NetStep::Emit(NetEvent::Msg(game_start())),
            NetStep::DecodeVoice(vec![VOICE_TAG, 1]),
            NetStep::DecodeSnapshot(vec![9]),
            NetStep::DecodeSnapshot(vec![]),
        ]
    );
    assert!(net.drain(vec![], VOICE_TAG).is_empty());
}

#[test]
fn nothing_follows_the_end_of_a_connection() {
    let mut net = NetClient::disconnected();
    net.connect(true);
    net.drain(vec![SocketEvent::Opened], VOICE_TAG);
    let steps = net.drain(
        vec![SocketEvent::Error("boom".to_string()), SocketEvent::Opened, SocketEvent::Closed],
        VOICE_TAG,
    );
    assert_eq!(steps, vec![NetStep::Emit(NetEvent::Closed("boom".to_string()))]);
    assert!(!net.is_connected() && !net.linked);
    let steps = net.drain(vec![SocketEvent::Closed], VOICE_TAG);
    assert_eq!(steps, vec![NetStep::Emit(NetEvent::Closed("closed".to_string()))]);
}

#[test]
fn a_failed_attempt_changes_nothing() {
    let mut net = NetClient::disconnected();
    assert!(!net.connect(false));
    assert!(!net.linked);
}

#[test]
fn outbound_capture_is_bounded() {
    let mut net = NetClient::disconnected();
    for k in 0..(OUTBOUND_CAP + 3) {
        assert!(!net.send_bin(vec![k as u8]), "no socket to send on");
    }
    let out = net.take_outbound_bin();
    assert_eq!(out.len(), OUTBOUND_CAP);
    assert_eq!(out[0], vec![3]);
    assert!(net.take_outbound_bin().is_empty());
    net.connect(true);
    assert!(net.send_bin(vec![1]));
}
