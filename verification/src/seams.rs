//! What passes between the session logic and the presentation modules: intents
//! one way, mirrors and queues the other.

use vstd::prelude::*;
use crate::scalar::F32;
use crate::wire::{EnvKind, QPos};

verus! {

/// What the interface wants the session to do.
#[derive(Debug, PartialEq, Eq)]
pub enum UiIntent {
    SetName(String),
    CreateLobby(EnvKind),
    JoinLobby(String),
    SetEnv(EnvKind),
    StartGame,
    LeaveLobby,
    /// Dismiss the statistics and return to the lobby, already rejoined.
    BackToLobby,
    PauseToggle,
}

/// Read-only mirror of lobby state for the interface to paint.
#[derive(Debug, PartialEq, Eq)]
pub struct LobbyView {
    /// The player's chosen callsign, kept across lobbies.
    pub name: String,
    pub code: String,
    pub invite_url: Option<String>,
    /// Name, whether the host, whether this player; one per occupant.
    pub players: Vec<(String, bool, bool)>,
    pub env: Option<EnvKind>,
    pub is_host: bool,
    /// One-line status or error.
    pub status: String,
    /// One-shot prefill for the join-code field.
    pub join_prefill: Option<String>,
}

/// A lobby mirror with its texts taken as character sequences.
#[verifier::ext_equal]
pub struct LobbyTexts {
    pub name: Seq<char>,
    pub code: Seq<char>,
    pub invite_url: Option<Seq<char>>,
    pub players: Seq<(Seq<char>, bool, bool)>,
    pub env: Option<EnvKind>,
    pub is_host: bool,
    pub status: Seq<char>,
    pub join_prefill: Option<Seq<char>>,
}

/// The characters of an optional text.
pub open spec fn optional_text(s: Option<String>) -> Option<Seq<char>> {
    match s {
        Some(t) => Some(t@),
        None => None,
    }
}

impl View for LobbyView {
    type V = LobbyTexts;

    open spec fn view(&self) -> LobbyTexts {
        LobbyTexts {
            name: self.name@,
            code: self.code@,
            invite_url: optional_text(self.invite_url),
            players: Seq::new(
                self.players@.len(),
                |i: int| (self.players@[i].0@, self.players@[i].1, self.players@[i].2),
            ),
            env: self.env,
            is_host: self.is_host,
            status: self.status@,
            join_prefill: optional_text(self.join_prefill),
        }
    }
}

/// A lobby mirror that knows nothing but the player's name.
pub open spec fn blank_lobby(name: Seq<char>) -> LobbyTexts {
    LobbyTexts {
        name,
        code: Seq::empty(),
        invite_url: None,
        players: Seq::empty(),
        env: None,
        is_host: false,
        status: Seq::empty(),
        join_prefill: None,
    }
}

impl LobbyView {
    /// A blank mirror for a player.
    pub fn for_name(name: String) -> (r: Self)
        ensures
            r@ == blank_lobby(name@),
            r.name@ == name@,
            r.code@.len() == 0,
            r.invite_url is None,
            r.players@.len() == 0,
            r.env is None,
            !r.is_host,
            r.status@.len() == 0,
            r.join_prefill is None,
    {
        let r = LobbyView {
            name,
            code: String::new(),
            invite_url: None,
            players: Vec::new(),
            env: None,
            is_host: false,
            status: String::new(),
            join_prefill: None,
        };
        assert(r@ =~= blank_lobby(name@));
        r
    }
}

impl Default for LobbyView {
    fn default() -> (r: Self)
        ensures
            r@ == blank_lobby(Seq::empty()),
    {
        LobbyView::for_name(String::new())
    }
}

/// Transient visual events derived from snapshots.
#[derive(Clone, Copy, Debug, PartialEq, Eq, Structural)]
pub enum VisualEvent {
    /// A tracer from a player's muzzle to the end point. `hit_kind`: 0 wall or
    /// miss, 1 hit, 2 kill, 3 headshot kill.
    Shot { slot: u8, end: QPos, hit_kind: u8, from_me: bool },
    Boom { pos: QPos },
}

/// Sound triggers.
#[derive(Clone, Copy, Debug, PartialEq, Eq, Structural)]
pub enum Sfx {
    Shoot { from_me: bool },
    HitConfirm,
    KillConfirm { headshot: bool },
    Explosion { dist: F32 },
    Hurt,
    Pickup,
    TeamWipe,
    Click,
    /// Trigger pulled on an empty magazine.
    DryClick,
    MeleeSwing,
    MeleeHit,
    ReloadClack,
    /// A zombie growling nearby, its volume already scaled by distance.
    Growl { volume: F32 },
}

/// What the page's own menu asked for before the engine was ready.
#[derive(Debug, PartialEq, Eq)]
pub enum QueuedBootAction {
    Host,
    Join(String),
}

/// A mirror's texts are those it holds: every field is shown, each under its own
/// name, and players in their order.
pub proof fn law_mirrors_show_what_they_hold(l: LobbyView, i: int)
    ensures
        l@.name == l.name@,
        l@.code == l.code@,
        l@.status == l.status@,
        l@.env == l.env,
        l@.is_host == l.is_host,
        l@.invite_url is Some <==> l.invite_url is Some,
        l.invite_url is Some ==> l@.invite_url->0 == l.invite_url->0@,
        l@.join_prefill is Some <==> l.join_prefill is Some,
        l.join_prefill is Some ==> l@.join_prefill->0 == l.join_prefill->0@,
        l@.players.len() == l.players@.len(),
        0 <= i < l.players@.len() ==> l@.players[i].0 == l.players@[i].0@ && l@.players[i].1
            == l.players@[i].1 && l@.players[i].2 == l.players@[i].2,
{
}

} // verus!
