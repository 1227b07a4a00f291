//! Messages and snapshots as the session logic sees them.
//!
//! World coordinates and angles stay in the quantised integers they travel in.

use vstd::prelude::*;
use crate::scalar::F32;

verus! {

/// The environments a match can be set in.
#[derive(Clone, Copy, Debug, PartialEq, Eq, Structural)]
pub enum EnvKind {
    Urban,
    MountainTown,
    DesertTown,
    SeaTown,
    RomeEur,
}

/// A quantised world position.
#[derive(Clone, Copy, Debug, PartialEq, Eq, Structural)]
pub struct QPos {
    pub x: i16,
    pub y: i16,
    pub z: i16,
}

/// A lobby occupant.
#[derive(Debug, PartialEq, Eq)]
pub struct LobbyPlayer {
    pub id: String,
    pub name: String,
}

/// A match participant.
#[derive(Debug, PartialEq, Eq)]
pub struct RosterPlayer {
    pub slot: u8,
    pub name: String,
}

/// One row of the match statistics.
#[derive(Debug, PartialEq, Eq)]
pub struct PlayerStats {
    pub slot: u8,
    pub name: String,
    pub kills: u32,
    pub damage_dealt: u32,
    pub shots_fired: u32,
    pub hits: u32,
    pub grenades_thrown: u32,
    pub time_alive_ms: u64,
}

/// Statistics of a finished match.
#[derive(Debug, PartialEq, Eq)]
pub struct MatchStats {
    pub duration_ms: u64,
    pub zombies_killed: u32,
    pub peak_zombies: u32,
    pub difficulty_reached: u8,
    pub players: Vec<PlayerStats>,
}

/// What the server says in text frames.
#[allow(inconsistent_fields)]
#[derive(Debug, PartialEq, Eq)]
pub enum ServerMsg {
    Welcome { player_id: String },
    LobbyState {
        code: String,
        host_id: String,
        players: Vec<LobbyPlayer>,
        env: EnvKind,
        invite_url: Option<String>,
    },
    GameStart { map_seed: String, env: EnvKind, your_slot: u8, players: Vec<RosterPlayer> },
    MatchEnd { stats: MatchStats },
    Error { message: String },
    Ping { t: u64 },
    /// Any other control message.
    Other,
}

/// What the client says in text frames.
#[derive(Debug, PartialEq, Eq)]
pub enum ClientMsg {
    Hello { name: String },
    CreateLobby { env: EnvKind },
    JoinLobby { code: String },
    SetEnv { env: EnvKind },
    StartGame,
    LeaveLobby,
    Pause,
    Resume,
    Pong { t: u64 },
}

/// A player in a snapshot.
#[derive(Clone, Copy, Debug, PartialEq, Eq, Structural)]
pub struct WirePlayer {
    pub slot: u8,
    pub pos: QPos,
    pub yaw: u16,
    pub pitch: i16,
    pub health: u8,
    pub ammo_mag: u8,
    pub ammo_reserve: u8,
    pub grenades: u8,
    pub kills: u16,
    pub alive: bool,
    pub last_acked_seq: u32,
}

/// A zombie in a snapshot.
#[derive(Clone, Copy, Debug, PartialEq, Eq, Structural)]
pub struct WireZombie {
    pub id: u16,
    pub kind: u8,
    /// 1 while winding up an attack.
    pub state: u8,
    pub pos: QPos,
    pub yaw: u8,
}

/// Loot lying in the world.
#[derive(Clone, Copy, Debug, PartialEq, Eq, Structural)]
pub struct WireLoot {
    pub id: u16,
    pub kind: u8,
    pub pos: QPos,
}

/// A grenade in flight.
#[derive(Clone, Copy, Debug, PartialEq, Eq, Structural)]
pub struct WireGrenade {
    pub id: u8,
    pub pos: QPos,
}

/// A shot fired since the previous snapshot. `hit_kind`: 0 wall or miss, 1 hit,
/// 2 kill, 3 headshot kill.
#[derive(Clone, Copy, Debug, PartialEq, Eq, Structural)]
pub struct WireShot {
    pub slot: u8,
    pub end: QPos,
    pub hit_kind: u8,
}

/// An explosion since the previous snapshot, with its distance from the
/// predicted body as it was when the snapshot arrived.
#[derive(Clone, Copy, Debug, PartialEq, Eq, Structural)]
pub struct WireBoom {
    pub pos: QPos,
    pub dist: F32,
}

/// A decoded world snapshot.
#[derive(Debug, PartialEq, Eq)]
pub struct Snapshot {
    pub tick: u32,
    pub game_time_ms: u32,
    pub difficulty: u8,
    pub paused: bool,
    pub players: Vec<WirePlayer>,
    pub zombies: Vec<WireZombie>,
    pub loot: Vec<WireLoot>,
    pub grenades: Vec<WireGrenade>,
    pub shots: Vec<WireShot>,
    pub booms: Vec<WireBoom>,
}

/// One fixed-rate input sample sent to the server.
#[derive(Clone, Copy, Debug, PartialEq, Eq, Structural)]
pub struct PlayerInput {
    pub seq: u32,
    pub forward: bool,
    pub backward: bool,
    pub left: bool,
    pub right: bool,
    pub jump: bool,
    pub fire: bool,
    pub grenade: bool,
    pub interact: bool,
    pub yaw: F32,
    pub pitch: F32,
}

} // verus!
