//! The networked game session: connecting, lobby, match, statistics.
//!
//! Everything that arrives, and everything the interface asks for, goes through
//! [`ClientState`]. The caller carries out what the returned effects and
//! actions say.

use std::collections::VecDeque;
use vstd::prelude::*;
use crate::net::NetEvent;
use crate::predict::{Predicted, PredictedView, Reconcile};
use crate::remotes::{plan_players, plan_zombies, ScenePlan};
use crate::seams::{LobbyTexts, LobbyView, Sfx, VisualEvent};
use crate::wire::{
    EnvKind, LobbyPlayer, MatchStats, QPos, RosterPlayer, ServerMsg, Snapshot, WireBoom,
    WirePlayer, WireShot,
};

verus! {

/// Most voice packets waiting to be played.
pub const VOICE_INBOX_CAP: usize = 32;

/// Where the client stands.
#[derive(Clone, Copy, Debug, PartialEq, Eq, Structural)]
pub enum Session {
    Boot,
    Connecting,
    /// Connected; name entry and create or join showing.
    Menu,
    /// In a lobby's waiting room.
    InLobby,
    Playing { my_slot: u8 },
    /// Team wiped: statistics over the frozen world.
    Ended { my_slot: u8 },
}

impl Session {
    /// The slot played in, during and right after a match.
    pub open spec fn slot(self) -> Option<u8> {
        match self {
            Session::Playing { my_slot } => Some(my_slot),
            Session::Ended { my_slot } => Some(my_slot),
            _ => None,
        }
    }

    pub fn my_slot(&self) -> (r: Option<u8>)
        ensures
            r == self.slot(),
    {
        match *self {
            Session::Playing { my_slot } => Some(my_slot),
            Session::Ended { my_slot } => Some(my_slot),
            _ => None,
        }
    }
}

impl Default for Session {
    fn default() -> (r: Self)
        ensures
            r is Boot,
    {
        Session::Boot
    }
}

/// In a match, or on its statistics.
pub fn in_match(session: Session) -> (r: bool)
    ensures
        r == (session is Playing || session is Ended),
{
    session.my_slot().is_some()
}

/// Actively playing, not on the statistics.
pub fn playing(session: Session) -> (r: bool)
    ensures
        r == (session is Playing),
{
    matches!(session, Session::Playing { .. })
}

/// The menu's camera still flies.
pub fn menu_active(session: Session) -> (r: bool)
    ensures
        r == !(session is Playing || session is Ended),
{
    session.my_slot().is_none()
}

/// An overlay is interactive, so the cursor must stay free.
pub fn ui_active(session: Session) -> (r: bool)
    ensures
        r == (session is Menu || session is InLobby || session is Ended),
{
    matches!(session, Session::Menu | Session::InLobby | Session::Ended { .. })
}

/// When the session changes to anything but playing, the cursor is set free.
pub fn frees_cursor(session: Session, changed: bool) -> (r: bool)
    ensures
        r == (changed && !(session is Playing)),
{
    changed && !matches!(session, Session::Playing { .. })
}

/// When the session changes to playing, the keyboard goes back to the canvas.
pub fn refocus_on_playing(session: Session, changed: bool) -> (r: bool)
    ensures
        r == (changed && session is Playing),
{
    changed && matches!(session, Session::Playing { .. })
}

/// When the match ends, the horde is hidden behind the statistics.
pub fn hide_horde_on_ended(session: Session, changed: bool) -> (r: bool)
    ensures
        r == (changed && session is Ended),
{
    changed && matches!(session, Session::Ended { .. })
}

/// The own vitals of the previous snapshot.
#[derive(Clone, Copy, Debug, PartialEq, Eq, Structural)]
pub struct PrevSelf {
    pub health: u8,
    pub ammo_reserve: u8,
    pub grenades: u8,
}

/// Everything the session remembers.
#[derive(Debug)]
pub struct ClientState {
    pub session: Session,
    /// Our connection's id, which marks us in lobby rosters.
    pub my_id: String,
    pub lobby_view: LobbyView,
    pub last_stats: Option<MatchStats>,
    pub latest: Option<Snapshot>,
    pub fx: VecDeque<VisualEvent>,
    pub sfx: VecDeque<Sfx>,
    pub prev_self: PrevSelf,
    /// Slot, name, whether this player.
    pub roster: Vec<(u8, String, bool)>,
    /// Own shots the weapon has not recoiled for yet.
    pub vm_kick: u32,
    pub voice_rx: VecDeque<(u8, Vec<u8>)>,
    /// Ends of own shots that hit, each due a flash.
    pub hit_ends: Vec<QPos>,
    pub predicted: Predicted,
}

/// The session with its texts and queues taken as sequences.
#[verifier::ext_equal]
pub struct GameView {
    pub session: Session,
    pub my_id: Seq<char>,
    pub lobby: LobbyTexts,
    pub last_stats: Option<MatchStats>,
    pub latest: Option<Snapshot>,
    pub fx: Seq<VisualEvent>,
    pub sfx: Seq<Sfx>,
    pub prev_self: PrevSelf,
    pub roster: Seq<(u8, Seq<char>, bool)>,
    pub vm_kick: u32,
    pub voice_rx: Seq<(u8, Vec<u8>)>,
    pub hit_ends: Seq<QPos>,
    pub predicted: PredictedView,
}

/// A roster with its names taken as characters.
pub open spec fn roster_texts(r: Seq<(u8, String, bool)>) -> Seq<(u8, Seq<char>, bool)> {
    Seq::new(r.len(), |i: int| (r[i].0, r[i].1@, r[i].2))
}

impl View for ClientState {
    type V = GameView;

    open spec fn view(&self) -> GameView {
        GameView {
            session: self.session,
            my_id: self.my_id@,
            lobby: self.lobby_view@,
            last_stats: self.last_stats,
            latest: self.latest,
            fx: self.fx@,
            sfx: self.sfx@,
            prev_self: self.prev_self,
            roster: roster_texts(self.roster@),
            vm_kick: self.vm_kick,
            voice_rx: self.voice_rx@,
            hit_ends: self.hit_ends@,
            predicted: self.predicted@,
        }
    }
}

// ---- text messages --------------------------------------------------------

/// The roster a lobby message describes: name, whether the host, whether us.
pub open spec fn lobby_players(
    players: Seq<LobbyPlayer>,
    host_id: Seq<char>,
    my_id: Seq<char>,
) -> Seq<(Seq<char>, bool, bool)> {
    Seq::new(
        players.len(),
        |i: int| (players[i].name@, players[i].id@ == host_id, players[i].id@ == my_id),
    )
}

/// The roster a starting match describes.
pub open spec fn match_roster(players: Seq<RosterPlayer>, your_slot: u8) -> Seq<
    (u8, Seq<char>, bool),
> {
    Seq::new(
        players.len(),
        |i: int| (players[i].slot, players[i].name@, players[i].slot == your_slot),
    )
}

/// The session after a text message.
pub open spec fn after_msg(v: GameView, msg: ServerMsg) -> GameView {
    match msg {
        ServerMsg::Welcome { player_id } => GameView { my_id: player_id@, ..v },
        ServerMsg::LobbyState { code, host_id, players, env, invite_url } => GameView {
            session: if v.session is Menu || v.session is Connecting {
                Session::InLobby
            } else {
                v.session
            },
            lobby: LobbyTexts {
                name: v.lobby.name,
                code: code@,
                invite_url: crate::seams::optional_text(invite_url),
                players: lobby_players(players@, host_id@, v.my_id),
                env: Some(env),
                is_host: host_id@ == v.my_id,
                status: Seq::empty(),
                join_prefill: v.lobby.join_prefill,
            },
            ..v
        },
        ServerMsg::GameStart { map_seed, env, your_slot, players } => GameView {
            session: Session::Playing { my_slot: your_slot },
            last_stats: None,
            latest: None,
            fx: Seq::empty(),
            prev_self: PrevSelf { health: 0, ammo_reserve: 0, grenades: 0 },
            roster: match_roster(players@, your_slot),
            vm_kick: 0,
            predicted: crate::predict::fresh_prediction(),
            ..v
        },
        ServerMsg::MatchEnd { stats } => match v.session {
            Session::Playing { my_slot } => GameView {
                session: Session::Ended { my_slot },
                last_stats: Some(stats),
                sfx: v.sfx.push(Sfx::TeamWipe),
                ..v
            },
            _ => v,
        },
        ServerMsg::Error { message } => GameView {
            lobby: LobbyTexts { status: message@, ..v.lobby },
            ..v
        },
        ServerMsg::Ping { t } => v,
        ServerMsg::Other => v,
    }
}

/// The session after the connection was lost.
pub open spec fn after_close(v: GameView, reason: Seq<char>) -> GameView {
    GameView {
        session: Session::Boot,
        lobby: LobbyTexts { status: "disconnected: "@ + reason, ..v.lobby },
        ..v
    }
}

/// The session after a voice packet arrived.
pub open spec fn after_voice(v: GameView, slot: u8, pcm: Vec<u8>) -> GameView {
    GameView {
        voice_rx: crate::predict::newest(v.voice_rx.push((slot, pcm)), VOICE_INBOX_CAP as int),
        ..v
    }
}

// ---- snapshots ------------------------------------------------------------

/// The first row at or after `i` of the player in `slot`.
pub open spec fn row_from(players: Seq<WirePlayer>, slot: u8, i: int) -> Option<int>
    decreases players.len() - i,
{
    if i >= players.len() {
        None
    } else if players[i].slot == slot {
        Some(i)
    } else {
        row_from(players, slot, i + 1)
    }
}

/// What a shot shows.
pub open spec fn shot_visual(s: WireShot, my_slot: u8) -> VisualEvent {
    VisualEvent::Shot { slot: s.slot, end: s.end, hit_kind: s.hit_kind, from_me: s.slot == my_slot }
}

/// What a shot sounds like: the bang, and for our own hits a confirmation.
pub open spec fn shot_sounds(s: WireShot, my_slot: u8) -> Seq<Sfx> {
    let from_me = s.slot == my_slot;
    let bang = seq![Sfx::Shoot { from_me }];
    if from_me && s.hit_kind == 1 {
        bang.push(Sfx::HitConfirm)
    } else if from_me && s.hit_kind >= 2 {
        bang.push(Sfx::KillConfirm { headshot: s.hit_kind == 3 })
    } else {
        bang
    }
}

/// What the first `n` shots sound like.
pub open spec fn shots_sounds(shots: Seq<WireShot>, my_slot: u8, n: int) -> Seq<Sfx>
    decreases n,
{
    if n <= 0 {
        Seq::empty()
    } else {
        shots_sounds(shots, my_slot, n - 1) + shot_sounds(shots[n - 1], my_slot)
    }
}

/// How many of the first `n` shots are ours.
pub open spec fn own_shots(shots: Seq<WireShot>, my_slot: u8, n: int) -> nat
    decreases n,
{
    if n <= 0 {
        0
    } else {
        own_shots(shots, my_slot, n - 1) + (if shots[n - 1].slot == my_slot {
            1nat
        } else {
            0nat
        })
    }
}

/// Where those of the first `n` shots ended that are ours and hit.
pub open spec fn own_hits(shots: Seq<WireShot>, my_slot: u8, n: int) -> Seq<QPos>
    decreases n,
{
    if n <= 0 {
        Seq::empty()
    } else if shots[n - 1].slot == my_slot && shots[n - 1].hit_kind >= 1 {
        own_hits(shots, my_slot, n - 1).push(shots[n - 1].end)
    } else {
        own_hits(shots, my_slot, n - 1)
    }
}

/// What the shots show, in order.
pub open spec fn shots_visuals(shots: Seq<WireShot>, my_slot: u8) -> Seq<VisualEvent> {
    Seq::new(shots.len(), |i: int| shot_visual(shots[i], my_slot))
}

/// What the explosions show, in order.
pub open spec fn boom_visuals(booms: Seq<WireBoom>) -> Seq<VisualEvent> {
    Seq::new(booms.len(), |i: int| VisualEvent::Boom { pos: booms[i].pos })
}

/// What the explosions sound like, in order.
pub open spec fn boom_sounds(booms: Seq<WireBoom>) -> Seq<Sfx> {
    Seq::new(booms.len(), |i: int| Sfx::Explosion { dist: booms[i].dist })
}

/// What a change of our vitals sounds like: less health hurts, more ammunition
/// or grenades is a pickup.
pub open spec fn vitals_sounds(prev: PrevSelf, me: WirePlayer) -> Seq<Sfx> {
    let hurt = if me.health < prev.health {
        seq![Sfx::Hurt]
    } else {
        Seq::empty()
    };
    if me.ammo_reserve > prev.ammo_reserve || me.grenades > prev.grenades {
        hurt.push(Sfx::Pickup)
    } else {
        hurt
    }
}

/// Our row of a snapshot.
pub open spec fn own_row(snap: Snapshot, my_slot: u8) -> Option<WirePlayer> {
    match row_from(snap.players@, my_slot, 0) {
        Some(i) => Some(snap.players@[i]),
        None => None,
    }
}

/// The session after a snapshot arrived in a match.
pub open spec fn after_snap(v: GameView, snap: Snapshot, my_slot: u8) -> GameView {
    let shots = snap.shots@;
    let me = own_row(snap, my_slot);
    let kicks = v.vm_kick + own_shots(shots, my_slot, shots.len() as int);
    GameView {
        fx: v.fx + shots_visuals(shots, my_slot) + boom_visuals(snap.booms@),
        sfx: v.sfx + shots_sounds(shots, my_slot, shots.len() as int) + boom_sounds(snap.booms@) + (
        match me {
            Some(row) => vitals_sounds(v.prev_self, row),
            None => Seq::empty(),
        }),
        vm_kick: if kicks > u32::MAX {
            u32::MAX
        } else {
            kicks as u32
        },
        hit_ends: v.hit_ends + own_hits(shots, my_slot, shots.len() as int),
        prev_self: match me {
            Some(row) => PrevSelf {
                health: row.health,
                ammo_reserve: row.ammo_reserve,
                grenades: row.grenades,
            },
            None => v.prev_self,
        },
        predicted: match me {
            Some(row) => crate::predict::adopted(v.predicted, row.last_acked_seq),
            None => v.predicted,
        },
        latest: Some(snap),
        ..v
    }
}

/// What the caller does to the world after a snapshot.
#[derive(Debug, PartialEq, Eq)]
pub struct SnapPlan {
    /// Our row in the snapshot.
    pub my_row: Option<usize>,
    /// How to apply our row.
    pub reconcile: Option<Reconcile>,
    /// Own shots that hit, each worth a camera kick.
    pub own_hits: usize,
    pub players: ScenePlan,
    pub zombies: ScenePlan,
}

/// The plan says about our own row what the snapshot holds.
pub open spec fn plans_own_row(plan: SnapPlan, v: GameView, snap: Snapshot, my_slot: u8) -> bool {
    match row_from(snap.players@, my_slot, 0) {
        Some(i) => {
            &&& plan.my_row is Some
            &&& plan.my_row->0 == i
            &&& 0 <= i < snap.players@.len()
            &&& plan.reconcile is Some
            &&& plan.reconcile->0.first == !v.predicted.synced
            &&& plan.reconcile->0.replay@ == crate::predict::unacked(
                v.predicted.pending,
                snap.players@[i].last_acked_seq,
            )
        },
        None => plan.my_row is None && plan.reconcile is None,
    }
}

/// Row `i` is ours: the first of the player in our slot.
pub open spec fn is_own_row(snap: Snapshot, my_slot: u8, i: int) -> bool {
    &&& 0 <= i < snap.players@.len()
    &&& snap.players@[i].slot == my_slot
    &&& forall|j: int| 0 <= j < i ==> (#[trigger] snap.players@[j]).slot != my_slot
}

/// Our row is applied on top of the server's word: the inputs with a number after
/// the one it acknowledged are replayed and stay pending, and the others are
/// done with.
pub open spec fn applies_own_row(
    plan: SnapPlan,
    before: PredictedView,
    after: PredictedView,
    row: WirePlayer,
    i: int,
) -> bool {
    &&& plan.my_row is Some
    &&& plan.my_row->0 == i
    &&& plan.reconcile is Some
    &&& plan.reconcile->0.first == !before.synced
    &&& plan.reconcile->0.replay@ == after.pending
    &&& forall|k: int|
        0 <= k < before.pending.len() ==> (after.pending.contains(
            #[trigger] before.pending[k],
        ) <==> before.pending[k].seq > row.last_acked_seq)
    &&& after.synced
    &&& after.next_seq == before.next_seq
}

/// The plan says about the remote entities what the snapshot lists.
pub open spec fn plans_remotes(
    plan: SnapPlan,
    snap: Snapshot,
    my_slot: u8,
    slots: Seq<u16>,
    ids: Seq<u16>,
) -> bool {
    let p = snap.players@;
    let z = snap.zombies@;
    let p_ids = crate::remotes::player_ids(p);
    let z_ids = crate::remotes::zombie_ids(z);
    let others = crate::remotes::others(p, my_slot);
    let all = crate::remotes::all_of(z.len());
    &&& plan.players.upserts@ == crate::remotes::upserts(slots, p_ids, others, p.len() as int)
    &&& plan.players.gone@ == crate::remotes::gone(slots, p_ids, others, slots.len() as int)
    &&& plan.zombies.upserts@ == crate::remotes::upserts(ids, z_ids, all, z.len() as int)
    &&& plan.zombies.gone@ == crate::remotes::gone(ids, z_ids, all, ids.len() as int)
}

/// The first row of the player in `slot`.
pub fn find_row(players: &Vec<WirePlayer>, slot: u8) -> (r: Option<usize>)
    ensures
        match row_from(players@, slot, 0) {
            Some(i) => r is Some && r->0 == i && 0 <= i < players@.len(),
            None => r is None,
        },
{
    for i in 0..players.len()
        invariant
            row_from(players@, slot, 0) == row_from(players@, slot, i as int),
    {
        if players[i].slot == slot {
            return Some(i);
        }
    }
    None
}

/// What the caller must do after an event.
#[derive(Debug, PartialEq, Eq)]
pub enum Effect {
    Nothing,
    /// Remove every remote entity, build the map, and put the keyboard on the
    /// canvas.
    MatchStarted { map_seed: String, env: EnvKind },
    /// Apply the latest snapshot to the world.
    SnapshotApplied(SnapPlan),
}

/// The session after an event.
pub open spec fn after_event(v: GameView, ev: NetEvent) -> GameView {
    match ev {
        NetEvent::Connected => if v.session is Connecting {
            GameView { session: Session::Menu, ..v }
        } else {
            v
        },
        NetEvent::Msg(msg) => after_msg(v, msg),
        NetEvent::Closed(reason) => after_close(v, reason@),
        NetEvent::Voice { slot, pcm } => after_voice(v, slot, pcm),
        NetEvent::Snap(snap) => match v.session.slot() {
            Some(my_slot) => after_snap(v, snap, my_slot),
            None => v,
        },
    }
}

impl ClientState {
    /// A client that has not connected yet.
    pub fn new(lobby_view: LobbyView) -> (r: Self)
        ensures
            r@ == (GameView {
                session: Session::Boot,
                my_id: Seq::empty(),
                lobby: lobby_view@,
                last_stats: None,
                latest: None,
                fx: Seq::empty(),
                sfx: Seq::empty(),
                prev_self: PrevSelf { health: 0, ammo_reserve: 0, grenades: 0 },
                roster: Seq::empty(),
                vm_kick: 0,
                voice_rx: Seq::empty(),
                hit_ends: Seq::empty(),
                predicted: crate::predict::fresh_prediction(),
            }),
            r@.predicted.wf(),
    {
        let r = ClientState {
            session: Session::Boot,
            my_id: String::new(),
            lobby_view,
            last_stats: None,
            latest: None,
            fx: VecDeque::new(),
            sfx: VecDeque::new(),
            prev_self: PrevSelf { health: 0, ammo_reserve: 0, grenades: 0 },
            roster: Vec::new(),
            vm_kick: 0,
            voice_rx: VecDeque::new(),
            hit_ends: Vec::new(),
            predicted: Predicted::default(),
        };
        assert(r@.my_id =~= Seq::empty());
        assert(r@.roster =~= Seq::empty());
        r
    }

    /// A connection attempt is due.
    pub fn wants_connection(&self) -> (r: bool)
        ensures
            r == (self@.session is Boot),
    {
        self.session == Session::Boot
    }

    /// The outcome of a due connection attempt; a failed one is tried again.
    pub fn connect_on_start(&mut self, opened: bool)
        ensures
            final(self)@ == (if old(self)@.session is Boot && opened {
                GameView { session: Session::Connecting, ..old(self)@ }
            } else {
                old(self)@
            }),
    {
        if self.session == Session::Boot && opened {
            self.session = Session::Connecting;
        }
    }

    fn on_lobby_state(
        &mut self,
        code: String,
        host_id: String,
        players: Vec<LobbyPlayer>,
        env: EnvKind,
        invite_url: Option<String>,
    )
        ensures
            final(self)@ == after_msg(
                old(self)@,
                ServerMsg::LobbyState { code, host_id, players, env, invite_url },
            ),
    {
        let ghost v = self@;
        let ghost rows = players@;
        let mut list: Vec<(String, bool, bool)> = Vec::new();
        let ghost texts = lobby_players(rows, host_id@, v.my_id);
        for p in it: players
            invariant
                it.seq() == rows,
                self@ == v,
                texts == lobby_players(rows, host_id@, v.my_id),
                list@.len() == it.index(),
                forall|i: int|
                    0 <= i < it.index() ==> texts[i] == ((#[trigger] list@[i]).0@, list@[i].1, list@[i].2),
        {
            let host: bool = p.id == host_id;
            let me: bool = p.id == self.my_id;
            list.push((p.name, host, me));
        }
        self.lobby_view.code = code;
        self.lobby_view.invite_url = invite_url;
        self.lobby_view.is_host = host_id == self.my_id;
        self.lobby_view.env = Some(env);
        self.lobby_view.players = list;
        self.lobby_view.status = String::new();
        if matches!(self.session, Session::Menu | Session::Connecting) {
            self.session = Session::InLobby;
        }
        assert(self@.lobby.players =~= texts);
        assert(self@.lobby.status =~= Seq::empty());
    }

    fn on_game_start(&mut self, your_slot: u8, players: Vec<RosterPlayer>, Ghost(msg): Ghost<ServerMsg>)
        requires
            msg matches ServerMsg::GameStart { map_seed, env, your_slot: s, players: p } && s
                == your_slot && p == players,
        ensures
            final(self)@ == after_msg(old(self)@, msg),
    {
        let ghost rows = players@;
        let ghost texts = match_roster(rows, your_slot);
        let mut list: Vec<(u8, String, bool)> = Vec::new();
        for p in it: players
            invariant
                it.seq() == rows,
                texts == match_roster(rows, your_slot),
                list@.len() == it.index(),
                forall|i: int|
                    0 <= i < it.index() ==> texts[i] == ((#[trigger] list@[i]).0, list@[i].1@, list@[i].2),
        {
            let me: bool = p.slot == your_slot;
            list.push((p.slot, p.name, me));
        }
        self.latest = None;
        self.last_stats = None;
        self.fx.clear();
        self.session = Session::Playing { my_slot: your_slot };
        self.predicted = Predicted::default();
        self.prev_self = PrevSelf { health: 0, ammo_reserve: 0, grenades: 0 };
        self.roster = list;
        self.vm_kick = 0;
        assert(self@.roster =~= texts);
        assert(self@.fx =~= Seq::empty());
    }

    fn on_msg(&mut self, msg: ServerMsg) -> (r: Effect)
        ensures
            final(self)@ == after_msg(old(self)@, msg),
            r == (match msg {
                ServerMsg::GameStart { map_seed, env, your_slot, players } => Effect::MatchStarted {
                    map_seed,
                    env,
                },
                _ => Effect::Nothing,
            }),
    {
        let ghost v = self@;
        let ghost whole = msg;
        match msg {
            ServerMsg::Welcome { player_id } => {
                self.my_id = player_id;
                assert(self@ =~= after_msg(v, whole));
                Effect::Nothing
            },
            ServerMsg::LobbyState { code, host_id, players, env, invite_url } => {
                self.on_lobby_state(code, host_id, players, env, invite_url);
                Effect::Nothing
            },
            ServerMsg::GameStart { map_seed, env, your_slot, players } => {
                self.on_game_start(your_slot, players, Ghost(whole));
                Effect::MatchStarted { map_seed, env }
            },
            ServerMsg::MatchEnd { stats } => {
                match self.session {
                    Session::Playing { my_slot } => {
                        self.sfx.push_back(Sfx::TeamWipe);
                        self.last_stats = Some(stats);
                        self.session = Session::Ended { my_slot };
                    },
                    _ => {},
                }
                assert(self@ =~= after_msg(v, whole));
                Effect::Nothing
            },
            ServerMsg::Error { message } => {
                self.lobby_view.status = message;
                assert(self@ =~= after_msg(v, whole));
                Effect::Nothing
            },
            ServerMsg::Ping { t } => Effect::Nothing,
            ServerMsg::Other => Effect::Nothing,
        }
    }

    fn on_close(&mut self, reason: &String)
        ensures
            final(self)@ == after_close(old(self)@, reason@),
    {
        let mut status: String = "disconnected: ".to_owned();
        status.append(reason.as_str());
        self.lobby_view.status = status;
        self.session = Session::Boot;
        assert(self@ =~= after_close(old(self)@, reason@));
    }

    fn on_voice(&mut self, slot: u8, pcm: Vec<u8>)
        ensures
            final(self)@ == after_voice(old(self)@, slot, pcm),
    {
        let ghost v = self@;
        let ghost q = self.voice_rx@;
        assert(q.skip(0) =~= q);
        while self.voice_rx.len() >= VOICE_INBOX_CAP
            invariant
                self@ == (GameView { voice_rx: self.voice_rx@, ..v }),
                self.voice_rx@ == q.skip(q.len() - self.voice_rx@.len()),
                self.voice_rx@.len() <= q.len(),
                self.voice_rx@.len() >= VOICE_INBOX_CAP - 1 || self.voice_rx@.len() == q.len(),
            decreases self.voice_rx@.len(),
        {
            let ghost before = self.voice_rx@;
            self.voice_rx.pop_front();
            assert(self.voice_rx@ =~= before.skip(1));
            assert(self.voice_rx@ =~= q.skip(q.len() - self.voice_rx@.len()));
        }
        self.voice_rx.push_back((slot, pcm));
        assert(self.voice_rx@ =~= crate::predict::newest(
            q.push((slot, pcm)),
            VOICE_INBOX_CAP as int,
        ));
    }

    fn take_shots(&mut self, shots: &Vec<WireShot>, my_slot: u8) -> (hits: usize)
        ensures
            ({
                let v = old(self)@;
                let n = shots@.len() as int;
                let kicks = v.vm_kick + own_shots(shots@, my_slot, n);
                &&& final(self)@ == (GameView {
                    fx: v.fx + shots_visuals(shots@, my_slot),
                    sfx: v.sfx + shots_sounds(shots@, my_slot, n),
                    vm_kick: if kicks > u32::MAX {
                        u32::MAX
                    } else {
                        kicks as u32
                    },
                    hit_ends: v.hit_ends + own_hits(shots@, my_slot, n),
                    ..v
                })
                &&& hits == own_hits(shots@, my_slot, n).len()
            }),
    {
        let ghost v = self@;
        let ghost visuals = shots_visuals(shots@, my_slot);
        let mut hits: usize = 0;
        assert(v.fx + visuals.take(0) =~= v.fx);
        assert(v.sfx + shots_sounds(shots@, my_slot, 0) =~= v.sfx);
        assert(v.hit_ends + own_hits(shots@, my_slot, 0) =~= v.hit_ends);
        for i in 0..shots.len()
            invariant
                visuals == shots_visuals(shots@, my_slot),
                hits == own_hits(shots@, my_slot, i as int).len(),
                hits <= i,
                ({
                    let kicks = v.vm_kick + own_shots(shots@, my_slot, i as int);
                    self@ == (GameView {
                        fx: v.fx + visuals.take(i as int),
                        sfx: v.sfx + shots_sounds(shots@, my_slot, i as int),
                        vm_kick: if kicks > u32::MAX {
                            u32::MAX
                        } else {
                            kicks as u32
                        },
                        hit_ends: v.hit_ends + own_hits(shots@, my_slot, i as int),
                        ..v
                    })
                }),
        {
            let s = shots[i];
            let from_me: bool = s.slot == my_slot;
            let ghost before = self@;
            self.fx.push_back(
                VisualEvent::Shot { slot: s.slot, end: s.end, hit_kind: s.hit_kind, from_me },
            );
            self.sfx.push_back(Sfx::Shoot { from_me });
            if from_me {
                self.vm_kick = self.vm_kick.saturating_add(1);
            }
            if from_me && s.hit_kind == 1 {
                self.sfx.push_back(Sfx::HitConfirm);
            }
            if from_me && s.hit_kind >= 2 {
                self.sfx.push_back(Sfx::KillConfirm { headshot: s.hit_kind == 3 });
            }
            if from_me && s.hit_kind >= 1 {
                self.hit_ends.push(s.end);
                hits += 1;
            }
            proof {
                assert(self@.fx =~= v.fx + visuals.take(i + 1));
                assert(self@.sfx =~= before.sfx + shot_sounds(s, my_slot));
                assert(self@.sfx =~= v.sfx + shots_sounds(shots@, my_slot, i + 1));
                assert(self@.hit_ends =~= v.hit_ends + own_hits(shots@, my_slot, i + 1));
            }
        }
        assert(visuals.take(shots@.len() as int) =~= visuals);
        hits
    }

    fn take_booms(&mut self, booms: &Vec<WireBoom>)
        ensures
            final(self)@ == (GameView {
                fx: old(self)@.fx + boom_visuals(booms@),
                sfx: old(self)@.sfx + boom_sounds(booms@),
                ..old(self)@
            }),
    {
        let ghost v = self@;
        let ghost visuals = boom_visuals(booms@);
        let ghost sounds = boom_sounds(booms@);
        assert(v.fx + visuals.take(0) =~= v.fx);
        assert(v.sfx + sounds.take(0) =~= v.sfx);
        for i in 0..booms.len()
            invariant
                visuals == boom_visuals(booms@),
                sounds == boom_sounds(booms@),
                self@ == (GameView {
                    fx: v.fx + visuals.take(i as int),
                    sfx: v.sfx + sounds.take(i as int),
                    ..v
                }),
        {
            self.fx.push_back(VisualEvent::Boom { pos: booms[i].pos });
            self.sfx.push_back(Sfx::Explosion { dist: booms[i].dist });
            assert(self@.fx =~= v.fx + visuals.take(i + 1));
            assert(self@.sfx =~= v.sfx + sounds.take(i + 1));
        }
        assert(visuals.take(booms@.len() as int) =~= visuals);
        assert(sounds.take(booms@.len() as int) =~= sounds);
    }

    fn take_vitals(&mut self, me: &WirePlayer)
        ensures
            final(self)@ == (GameView {
                sfx: old(self)@.sfx + vitals_sounds(old(self)@.prev_self, *me),
                prev_self: PrevSelf {
                    health: me.health,
                    ammo_reserve: me.ammo_reserve,
                    grenades: me.grenades,
                },
                ..old(self)@
            }),
    {
        let ghost v = self@;
        if me.health < self.prev_self.health {
            self.sfx.push_back(Sfx::Hurt);
        }
        if me.ammo_reserve > self.prev_self.ammo_reserve || me.grenades > self.prev_self.grenades {
            self.sfx.push_back(Sfx::Pickup);
        }
        self.prev_self = PrevSelf {
            health: me.health,
            ammo_reserve: me.ammo_reserve,
            grenades: me.grenades,
        };
        assert(self@.sfx =~= v.sfx + vitals_sounds(v.prev_self, *me));
    }

    fn on_snap(&mut self, snap: Snapshot, my_slot: u8, slots: &Vec<u16>, ids: &Vec<u16>) -> (r: SnapPlan)
        requires
            old(self)@.predicted.wf(),
        ensures
            final(self)@ == after_snap(old(self)@, snap, my_slot),
            final(self)@.predicted.wf(),
            plans_own_row(r, old(self)@, snap, my_slot),
            plans_remotes(r, snap, my_slot, slots@, ids@),
            r.own_hits == own_hits(snap.shots@, my_slot, snap.shots@.len() as int).len(),
    {
        let ghost v = self@;
        let hits: usize = self.take_shots(&snap.shots, my_slot);
        self.take_booms(&snap.booms);
        let my_row: Option<usize> = find_row(&snap.players, my_slot);
        let mut reconcile: Option<Reconcile> = None;
        match my_row {
            Some(i) => {
                let me = snap.players[i];
                self.take_vitals(&me);
                reconcile = Some(self.predicted.adopt(me.last_acked_seq));
            },
            None => {},
        }
        let players: ScenePlan = plan_players(slots, &snap.players, my_slot);
        let zombies: ScenePlan = plan_zombies(ids, &snap.zombies);
        self.latest = Some(snap);
        proof {
            let want = after_snap(v, snap, my_slot);
            let n = snap.shots@.len() as int;
            let heard = v.sfx + shots_sounds(snap.shots@, my_slot, n) + boom_sounds(snap.booms@);
            match my_row {
                Some(i) => {
                    assert(own_row(snap, my_slot) == Some(snap.players@[i as int]));
                    assert(self@.sfx =~= heard + vitals_sounds(
                        v.prev_self,
                        snap.players@[i as int],
                    ));
                },
                None => {
                    assert(own_row(snap, my_slot) is None);
                    assert(self@.sfx =~= heard + Seq::empty());
                },
            }
            assert(self@.fx =~= want.fx);
            assert(self@ =~= want);
        }
        SnapPlan { my_row, reconcile, own_hits: hits, players, zombies }
    }

    /// Takes one event off the network. `slots` and `ids` are the remote players
    /// and zombies in the scene, in the order their entities are listed.
    pub fn net_poll(&mut self, ev: NetEvent, slots: &Vec<u16>, ids: &Vec<u16>) -> (r: Effect)
        requires
            old(self)@.predicted.wf(),
        ensures
            final(self)@ == after_event(old(self)@, ev),
            final(self)@.predicted.wf(),
            match ev {
                NetEvent::Msg(ServerMsg::GameStart { map_seed, env, your_slot, players }) => r
                    == (Effect::MatchStarted { map_seed, env }),
                NetEvent::Snap(snap) => match old(self)@.session.slot() {
                    Some(my_slot) => {
                        &&& r is SnapshotApplied
                        &&& plans_own_row(r->SnapshotApplied_0, old(self)@, snap, my_slot)
                        &&& plans_remotes(r->SnapshotApplied_0, snap, my_slot, slots@, ids@)
                        &&& r->SnapshotApplied_0.own_hits == own_hits(
                            snap.shots@,
                            my_slot,
                            snap.shots@.len() as int,
                        ).len()
                    },
                    None => r is Nothing,
                },
                _ => r is Nothing,
            },
            ev matches NetEvent::Msg(
                ServerMsg::LobbyState { code, host_id, players, env, invite_url },
            ) ==> {
                let shown = final(self).lobby_view;
                &&& shown.code@ == code@
                &&& shown.env == Some(env)
                &&& shown.is_host == (host_id@ == old(self).my_id@)
                &&& shown.status@.len() == 0
                &&& shown.name@ == old(self).lobby_view.name@
                &&& shown.invite_url is Some <==> invite_url is Some
                &&& invite_url is Some ==> shown.invite_url->0@ == invite_url->0@
                &&& shown.players@.len() == players@.len()
                &&& forall|i: int|
                    0 <= i < players@.len() ==> (#[trigger] shown.players@[i]).0@
                        == players@[i].name@ && shown.players@[i].1 == (players@[i].id@ == host_id@)
                        && shown.players@[i].2 == (players@[i].id@ == old(self).my_id@)
            },
            ev matches NetEvent::Msg(ServerMsg::Welcome { player_id }) ==> final(self).my_id@
                == player_id@,
            ev matches NetEvent::Msg(ServerMsg::GameStart { map_seed, env, your_slot, players })
                ==> {
                &&& final(self).session == (Session::Playing { my_slot: your_slot })
                &&& final(self).roster@.len() == players@.len()
                &&& forall|i: int|
                    0 <= i < players@.len() ==> (#[trigger] final(self).roster@[i]).0
                        == players@[i].slot && final(self).roster@[i].1@ == players@[i].name@
                        && final(self).roster@[i].2 == (players@[i].slot == your_slot)
            },
            ev matches NetEvent::Snap(snap) ==> old(self).session matches Session::Playing {
                my_slot,
            } ==> {
                &&& final(self).latest == Some(snap)
                &&& forall|i: int|
                    is_own_row(snap, my_slot, i) ==> applies_own_row(
                        r->SnapshotApplied_0,
                        old(self)@.predicted,
                        final(self)@.predicted,
                        #[trigger] snap.players@[i],
                        i,
                    )
            },
    {
        proof {
            if ev is Snap && self.session is Playing {
                lemma_acked_inputs(
                    self@.predicted,
                    ev->Snap_0,
                    self.session->Playing_my_slot,
                );
            }
        }
        match ev {
            NetEvent::Connected => {
                if self.session == Session::Connecting {
                    self.session = Session::Menu;
                }
                Effect::Nothing
            },
            NetEvent::Msg(msg) => {
                let r = self.on_msg(msg);
                proof {
                    let shown = self.lobby_view.players@;
                    assert forall|i: int| 0 <= i < shown.len() implies self@.lobby.players[i] == ((
                    #[trigger] shown[i]).0@, shown[i].1, shown[i].2) by {}
                    let roster = self.roster@;
                    assert forall|i: int| 0 <= i < roster.len() implies self@.roster[i] == ((
                    #[trigger] roster[i]).0, roster[i].1@, roster[i].2) by {}
                    assert(self@.lobby.players.len() == shown.len());
                    assert(self@.roster.len() == roster.len());
                }
                r
            },
            NetEvent::Closed(reason) => {
                self.on_close(&reason);
                Effect::Nothing
            },
            NetEvent::Voice { slot, pcm } => {
                self.on_voice(slot, pcm);
                Effect::Nothing
            },
            NetEvent::Snap(snap) => {
                match self.session.my_slot() {
                    Some(my_slot) => Effect::SnapshotApplied(
                        self.on_snap(snap, my_slot, slots, ids),
                    ),
                    None => Effect::Nothing,
                }
            },
        }
    }

    /// Takes the own shots that the weapon has not recoiled for yet: whether
    /// there were any, and none are left.
    pub fn take_kicks(&mut self) -> (any: bool)
        ensures
            any == (old(self)@.vm_kick > 0),
            final(self)@ == (GameView { vm_kick: 0, ..old(self)@ }),
    {
        let any = self.vm_kick > 0;
        self.vm_kick = 0;
        any
    }

    /// Takes the ends of own shots that are due a flash.
    pub fn take_hit_ends(&mut self) -> (ends: Vec<QPos>)
        ensures
            ends@ == old(self)@.hit_ends,
            final(self)@ == (GameView { hit_ends: Seq::empty(), ..old(self)@ }),
    {
        let mut ends: Vec<QPos> = Vec::new();
        std::mem::swap(&mut self.hit_ends, &mut ends);
        assert(self@.hit_ends =~= Seq::empty());
        ends
    }

    /// Leaving the match, its mirrors are dropped, so that the next match
    /// inherits nothing. The result asks for the match's entities to be removed.
    pub fn cleanup_match_visuals(&mut self, changed: bool) -> (remove: bool)
        ensures
            remove == (changed && old(self)@.session.slot() is None),
            final(self)@ == (if remove {
                GameView { latest: None, last_stats: None, fx: Seq::empty(), ..old(self)@ }
            } else {
                old(self)@
            }),
    {
        if !changed || in_match(self.session) {
            return false;
        }
        self.latest = None;
        self.last_stats = None;
        self.fx.clear();
        assert(self@.fx =~= Seq::empty());
        true
    }
}

/// A match end counts only while playing: a late one from an earlier match
/// changes nothing.
pub proof fn law_late_match_end_is_ignored(v: GameView, stats: MatchStats)
    requires
        !(v.session is Playing),
    ensures
        after_msg(v, ServerMsg::MatchEnd { stats }) == v,
{
}

/// A starting match inherits nothing from the one before: no snapshot, no
/// statistics, no effects, no prediction, no recoil.
pub proof fn law_rematch_starts_clean(
    v: GameView,
    w: GameView,
    map_seed: String,
    env: EnvKind,
    your_slot: u8,
    players: Vec<RosterPlayer>,
)
    ensures
        ({
            let start = ServerMsg::GameStart { map_seed, env, your_slot, players };
            let a = after_msg(v, start);
            let b = after_msg(w, start);
            &&& a.session == (Session::Playing { my_slot: your_slot })
            &&& a.latest is None
            &&& a.last_stats is None
            &&& a.fx == Seq::<VisualEvent>::empty()
            &&& a.vm_kick == 0
            &&& a.prev_self.health == 0 && a.prev_self.ammo_reserve == 0 && a.prev_self.grenades
                == 0
            &&& a.predicted.pending.len() == 0
            &&& a.session == b.session && a.latest == b.latest && a.last_stats == b.last_stats
                && a.fx == b.fx && a.prev_self == b.prev_self && a.roster == b.roster && a.vm_kick
                == b.vm_kick && a.predicted == b.predicted
        }),
{
}

/// A session only ever moves along these edges when an event arrives: a
/// connection opens the menu, a lobby message the lobby, a game start the match,
/// a match end its statistics, and a lost connection leads back to the start.
pub proof fn law_session_edges(v: GameView, ev: NetEvent)
    requires
        after_event(v, ev).session != v.session,
    ensures
        ({
            let to = after_event(v, ev).session;
            ||| (ev is Connected && v.session is Connecting && to is Menu)
            ||| (ev is Msg && ev->Msg_0 is LobbyState && (v.session is Menu || v.session
                is Connecting) && to is InLobby)
            ||| (ev is Msg && ev->Msg_0 is GameStart && to is Playing)
            ||| (ev is Msg && ev->Msg_0 is MatchEnd && v.session is Playing && to == (
            Session::Ended { my_slot: v.session.slot()->0 }))
            ||| (ev is Closed && to is Boot)
        }),
{
}

/// Outside a match a snapshot changes nothing.
pub proof fn law_snapshots_outside_a_match_are_ignored(v: GameView, snap: Snapshot)
    requires
        v.session.slot() is None,
    ensures
        after_event(v, NetEvent::Snap(snap)) == v,
{
}

/// A lobby message during a match or its statistics does not end them.
pub proof fn law_lobby_state_waits_for_the_match(
    v: GameView,
    code: String,
    host_id: String,
    players: Vec<LobbyPlayer>,
    env: EnvKind,
    invite_url: Option<String>,
)
    requires
        v.session.slot() is Some,
    ensures
        after_msg(
            v,
            ServerMsg::LobbyState { code, host_id, players, env, invite_url },
        ).session == v.session,
{
}

/// The first snapshot of a match that lists us seeds prediction, even if it
/// arrives right behind the game start.
pub proof fn law_first_own_sample_seeds_prediction(v: GameView, snap: Snapshot, my_slot: u8)
    requires
        v.session == (Session::Playing { my_slot }),
        own_row(snap, my_slot) is Some,
    ensures
        after_event(v, NetEvent::Snap(snap)).predicted.synced,
        after_event(v, NetEvent::Snap(snap)).latest == Some(snap),
{
}

/// The voice inbox is bounded and keeps the newest packets.
pub proof fn law_voice_inbox_is_bounded(v: GameView, slot: u8, pcm: Vec<u8>)
    ensures
        after_voice(v, slot, pcm).voice_rx.len() <= VOICE_INBOX_CAP,
        after_voice(v, slot, pcm).voice_rx.last() == (slot, pcm),
{
}

proof fn lemma_own_row(snap: Snapshot, my_slot: u8, i: int, from: int)
    requires
        is_own_row(snap, my_slot, i),
        0 <= from <= i,
    ensures
        row_from(snap.players@, my_slot, from) == Some(i),
    decreases i - from,
{
    if from < i {
        assert(snap.players@[from].slot != my_slot);
        lemma_own_row(snap, my_slot, i, from + 1);
    }
}

/// The first row of a slot is found by it.
pub proof fn law_row_is_found(snap: Snapshot, slot: u8, i: int)
    requires
        is_own_row(snap, slot, i),
    ensures
        row_from(snap.players@, slot, 0) == Some(i),
        own_row(snap, slot) == Some(snap.players@[i]),
{
    lemma_own_row(snap, slot, i, 0);
}

/// Where no row has the slot, none is found.
pub proof fn law_missing_row_is_not_found(snap: Snapshot, slot: u8)
    requires
        forall|j: int| 0 <= j < snap.players@.len() ==> (#[trigger] snap.players@[j]).slot != slot,
    ensures
        row_from(snap.players@, slot, 0) is None,
        own_row(snap, slot) is None,
{
    lemma_no_own_row(snap, slot, 0);
}

proof fn lemma_acked_inputs(v: PredictedView, snap: Snapshot, my_slot: u8)
    requires
        v.wf(),
    ensures
        forall|i: int|
            is_own_row(snap, my_slot, i) ==> (#[trigger] snap.players@[i]).slot == my_slot && row_from(
                snap.players@,
                my_slot,
                0,
            ) == Some(i),
        forall|i: int, k: int|
            is_own_row(snap, my_slot, i) && 0 <= k < v.pending.len() ==> (crate::predict::unacked(
                v.pending,
                (#[trigger] snap.players@[i]).last_acked_seq,
            ).contains(#[trigger] v.pending[k]) <==> v.pending[k].seq
                > snap.players@[i].last_acked_seq),
{
    assert forall|i: int| is_own_row(snap, my_slot, i) implies (#[trigger] snap.players@[i]).slot
        == my_slot && row_from(snap.players@, my_slot, 0) == Some(i) by {
        lemma_own_row(snap, my_slot, i, 0);
    }
    assert forall|i: int, k: int|
        is_own_row(snap, my_slot, i) && 0 <= k < v.pending.len() implies (crate::predict::unacked(
        v.pending,
        (#[trigger] snap.players@[i]).last_acked_seq,
    ).contains(#[trigger] v.pending[k]) <==> v.pending[k].seq > snap.players@[i].last_acked_seq) by {
        crate::predict::law_ack_leaves_exactly_later_inputs(v, snap.players@[i].last_acked_seq, k);
    }
}

proof fn lemma_no_own_row(snap: Snapshot, my_slot: u8, from: int)
    requires
        0 <= from <= snap.players@.len(),
        forall|j: int| 0 <= j < snap.players@.len() ==> (#[trigger] snap.players@[j]).slot != my_slot,
    ensures
        row_from(snap.players@, my_slot, from) is None,
    decreases snap.players@.len() - from,
{
    if from < snap.players@.len() {
        assert(snap.players@[from].slot != my_slot);
        lemma_no_own_row(snap, my_slot, from + 1);
    }
}

/// A snapshot that lists us is reconciled by numbers: of the inputs pending before
/// it, those after the acknowledged number stay pending and are replayed, and no
/// others are.
pub proof fn law_acknowledged_inputs_are_not_replayed(
    v: GameView,
    snap: Snapshot,
    my_slot: u8,
    plan: SnapPlan,
    i: int,
    k: int,
)
    requires
        v.session.slot() == Some(my_slot),
        v.predicted.wf(),
        is_own_row(snap, my_slot, i),
        0 <= k < v.predicted.pending.len(),
        plans_own_row(plan, v, snap, my_slot),
    ensures
        ({
            let input = v.predicted.pending[k];
            let acked = snap.players@[i].last_acked_seq;
            let after = after_event(v, NetEvent::Snap(snap)).predicted;
            &&& after.pending.contains(input) <==> input.seq > acked
            &&& plan.reconcile->0.replay@.contains(input) <==> input.seq > acked
            &&& plan.reconcile->0.replay@ == after.pending
            &&& plan.reconcile->0.first == !v.predicted.synced
            &&& plan.my_row == Some(i as usize)
        }),
{
    lemma_own_row(snap, my_slot, i, 0);
    crate::predict::law_ack_leaves_exactly_later_inputs(
        v.predicted,
        snap.players@[i].last_acked_seq,
        k,
    );
}

/// A snapshot that does not list us leaves prediction and our vitals alone.
pub proof fn law_snapshots_without_us_leave_prediction_alone(
    v: GameView,
    snap: Snapshot,
    my_slot: u8,
    plan: SnapPlan,
)
    requires
        v.session.slot() == Some(my_slot),
        forall|j: int| 0 <= j < snap.players@.len() ==> (#[trigger] snap.players@[j]).slot != my_slot,
        plans_own_row(plan, v, snap, my_slot),
    ensures
        after_event(v, NetEvent::Snap(snap)).predicted == v.predicted,
        after_event(v, NetEvent::Snap(snap)).prev_self == v.prev_self,
        plan.my_row is None,
        plan.reconcile is None,
{
    lemma_no_own_row(snap, my_slot, 0);
}

/// After a lobby message the lobby shown is the one it describes, whatever was
/// shown before: its code to share, its link, its environment, who hosts it and
/// who is in it. The player's name stays, and the status line is cleared.
pub proof fn law_lobby_shows_the_message(
    v: GameView,
    code: String,
    host_id: String,
    players: Vec<LobbyPlayer>,
    env: EnvKind,
    invite_url: Option<String>,
)
    ensures
        ({
            let msg = ServerMsg::LobbyState { code, host_id, players, env, invite_url };
            let after = after_event(v, NetEvent::Msg(msg));
            let shown = after.lobby;
            &&& shown.code == code@
            &&& shown.invite_url is Some <==> invite_url is Some
            &&& invite_url is Some ==> shown.invite_url->0 == invite_url->0@
            &&& shown.env == Some(env)
            &&& shown.is_host <==> host_id@ == v.my_id
            &&& shown.players.len() == players@.len()
            &&& forall|i: int|
                0 <= i < players@.len() ==> shown.players[i] == (
                    (#[trigger] players@[i]).name@,
                    players@[i].id@ == host_id@,
                    players@[i].id@ == v.my_id,
                )
            &&& shown.status.len() == 0
            &&& shown.name == v.lobby.name
            &&& shown.join_prefill == v.lobby.join_prefill
            &&& after == (GameView { session: after.session, lobby: shown, ..v })
        }),
{
}

/// Two clients with one id and one name show the same lobby after the same
/// message, whatever they showed before.
pub proof fn law_lobbies_forget_what_they_showed(
    v: GameView,
    w: GameView,
    code: String,
    host_id: String,
    players: Vec<LobbyPlayer>,
    env: EnvKind,
    invite_url: Option<String>,
)
    requires
        v.my_id == w.my_id,
        v.lobby.name == w.lobby.name,
        v.lobby.join_prefill == w.lobby.join_prefill,
    ensures
        ({
            let msg = ServerMsg::LobbyState { code, host_id, players, env, invite_url };
            let a = after_event(v, NetEvent::Msg(msg)).lobby;
            let b = after_event(w, NetEvent::Msg(msg)).lobby;
            a == b && a.code == code@
        }),
{
}

/// Events lead the session where they should: an accepted connection to the menu,
/// a lobby message on to the lobby, a game start into the match in the slot it
/// names, its end to the statistics of the same slot, and a lost connection back
/// to the start. All else leaves it where it is.
pub proof fn law_events_move_the_session(v: GameView, ev: NetEvent)
    ensures
        ({
            let to = after_event(v, ev).session;
            match ev {
                NetEvent::Connected => to == (if v.session is Connecting {
                    Session::Menu
                } else {
                    v.session
                }),
                NetEvent::Msg(ServerMsg::LobbyState { .. }) => to == (if v.session is Menu
                    || v.session is Connecting {
                    Session::InLobby
                } else {
                    v.session
                }),
                NetEvent::Msg(ServerMsg::GameStart { map_seed, env, your_slot, players }) => to == (
                Session::Playing { my_slot: your_slot }),
                NetEvent::Msg(ServerMsg::MatchEnd { stats }) => to == (match v.session {
                    Session::Playing { my_slot } => Session::Ended { my_slot },
                    other => other,
                }),
                NetEvent::Closed(reason) => to is Boot,
                _ => to == v.session,
            }
        }),
{
}

/// A welcome tells us our id, and nothing else.
pub proof fn law_welcome_names_us(v: GameView, player_id: String)
    ensures
        after_event(v, NetEvent::Msg(ServerMsg::Welcome { player_id })) == (GameView {
            my_id: player_id@,
            ..v
        }),
{
}

/// The roster of a starting match lists its players in order, each with slot and
/// name, and marks the one in our slot. What does not belong to a match stays:
/// our id, the lobby, the voices and the sounds still to be played.
pub proof fn law_match_roster_lists_the_players(
    v: GameView,
    map_seed: String,
    env: EnvKind,
    your_slot: u8,
    players: Vec<RosterPlayer>,
)
    ensures
        ({
            let after = after_event(
                v,
                NetEvent::Msg(ServerMsg::GameStart { map_seed, env, your_slot, players }),
            );
            &&& after.roster.len() == players@.len()
            &&& forall|i: int|
                0 <= i < players@.len() ==> after.roster[i] == (
                    (#[trigger] players@[i]).slot,
                    players@[i].name@,
                    players@[i].slot == your_slot,
                )
            &&& after.my_id == v.my_id
            &&& after.lobby == v.lobby
            &&& after.sfx == v.sfx
            &&& after.voice_rx == v.voice_rx
            &&& after.vm_kick == 0
            &&& after.predicted.pending.len() == 0
            &&& !after.predicted.synced
            &&& after.predicted.next_seq == 1
            &&& after.prev_self.health == 0
        }),
{
}

/// The end of a match shows its statistics and sounds once; the world stays
/// frozen as it was.
pub proof fn law_match_end_shows_the_statistics(v: GameView, my_slot: u8, stats: MatchStats)
    requires
        v.session == (Session::Playing { my_slot }),
    ensures
        ({
            let after = after_event(v, NetEvent::Msg(ServerMsg::MatchEnd { stats }));
            &&& after.last_stats == Some(stats)
            &&& after.session == (Session::Ended { my_slot })
            &&& after.sfx == v.sfx.push(Sfx::TeamWipe)
            &&& after == (GameView {
                session: after.session,
                last_stats: after.last_stats,
                sfx: after.sfx,
                ..v
            })
        }),
{
}

/// An error is shown in the status line as the server worded it; nothing else
/// changes. Pings and unknown messages change nothing.
pub proof fn law_errors_are_shown(v: GameView, message: String, t: u64)
    ensures
        ({
            let after = after_event(v, NetEvent::Msg(ServerMsg::Error { message }));
            &&& after.lobby.status == message@
            &&& after == (GameView {
                lobby: LobbyTexts { status: after.lobby.status, ..v.lobby },
                ..v
            })
            &&& after_event(v, NetEvent::Msg(ServerMsg::Ping { t })) == v
            &&& after_event(v, NetEvent::Msg(ServerMsg::Other)) == v
        }),
{
}

/// A lost connection tells the player why; the next attempt starts from there.
pub proof fn law_a_lost_connection_says_why(v: GameView, reason: String)
    ensures
        ({
            let after = after_event(v, NetEvent::Closed(reason));
            let status = after.lobby.status;
            &&& status.len() == "disconnected: "@.len() + reason@.len()
            &&& status.take("disconnected: "@.len() as int) == "disconnected: "@
            &&& status.skip("disconnected: "@.len() as int) == reason@
            &&& after.session is Boot
            &&& after == (GameView {
                session: after.session,
                lobby: LobbyTexts { status, ..v.lobby },
                ..v
            })
        }),
{
    let status = after_event(v, NetEvent::Closed(reason)).lobby.status;
    let n = "disconnected: "@.len() as int;
    assert(status.take(n) =~= "disconnected: "@);
    assert(status.skip(n) =~= reason@);
}

/// A voice packet joins the inbox behind those waiting; only the oldest ever
/// leave, and only where the inbox is full.
pub proof fn law_voice_packets_queue_up(v: GameView, slot: u8, pcm: Vec<u8>, i: int)
    requires
        0 <= i < v.voice_rx.len() < VOICE_INBOX_CAP,
    ensures
        ({
            let after = after_event(v, NetEvent::Voice { slot, pcm });
            &&& after.voice_rx.len() == v.voice_rx.len() + 1
            &&& after.voice_rx[i] == v.voice_rx[i]
            &&& after.voice_rx.last() == (slot, pcm)
            &&& after == (GameView { voice_rx: after.voice_rx, ..v })
        }),
{
}

/// A full inbox gives up its oldest packet for the new one.
pub proof fn law_a_full_voice_inbox_drops_the_oldest(v: GameView, slot: u8, pcm: Vec<u8>, i: int)
    requires
        v.voice_rx.len() == VOICE_INBOX_CAP,
        0 < i < VOICE_INBOX_CAP,
    ensures
        ({
            let after = after_event(v, NetEvent::Voice { slot, pcm });
            &&& after.voice_rx.len() == VOICE_INBOX_CAP
            &&& after.voice_rx[i - 1] == v.voice_rx[i]
            &&& after.voice_rx.last() == (slot, pcm)
        }),
{
}

/// Every shot of a snapshot is shown once, in order, from the slot that fired it
/// to the point where it ended, marked as ours exactly if we fired it; then every
/// explosion at its place. What was still to be shown comes before.
pub proof fn law_snapshots_show_every_shot_and_boom(v: GameView, snap: Snapshot, my_slot: u8)
    requires
        v.session.slot() == Some(my_slot),
    ensures
        ({
            let fx = after_event(v, NetEvent::Snap(snap)).fx;
            let old_n = v.fx.len() as int;
            let shots = snap.shots@;
            let booms = snap.booms@;
            &&& fx.len() == old_n + shots.len() + booms.len()
            &&& forall|i: int| 0 <= i < old_n ==> #[trigger] fx[i] == v.fx[i]
            &&& forall|i: int|
                0 <= i < shots.len() ==> fx[old_n + i] == (VisualEvent::Shot {
                    slot: (#[trigger] shots[i]).slot,
                    end: shots[i].end,
                    hit_kind: shots[i].hit_kind,
                    from_me: shots[i].slot == my_slot,
                })
            &&& forall|i: int|
                0 <= i < booms.len() ==> fx[old_n + shots.len() + i] == (VisualEvent::Boom {
                    pos: (#[trigger] booms[i]).pos,
                })
        }),
{
}

/// Every shot bangs, ours as ours; our hits are confirmed, kills with whether it
/// was the head; and nobody else's are.
pub proof fn law_shots_sound_right(s: WireShot, my_slot: u8)
    ensures
        ({
            let heard = shot_sounds(s, my_slot);
            &&& heard.len() == (if s.slot == my_slot && s.hit_kind != 0 {
                2
            } else {
                1int
            })
            &&& heard[0] == (Sfx::Shoot { from_me: s.slot == my_slot })
            &&& s.slot == my_slot && s.hit_kind == 1 ==> heard[1] is HitConfirm
            &&& s.slot == my_slot && s.hit_kind >= 2 ==> heard[1] == (Sfx::KillConfirm {
                headshot: s.hit_kind == 3,
            })
        }),
{
}

/// A snapshot sounds like its shots, then its explosions, each as far as it is,
/// then what became of us: less health hurts, more ammunition or more grenades is
/// a pickup. What was still to be played comes before.
pub proof fn law_snapshots_sound_in_order(v: GameView, snap: Snapshot, my_slot: u8, i: int)
    requires
        v.session.slot() == Some(my_slot),
        is_own_row(snap, my_slot, i),
    ensures
        ({
            let sfx = after_event(v, NetEvent::Snap(snap)).sfx;
            let me = snap.players@[i];
            let booms = snap.booms@;
            let old_n = v.sfx.len() as int;
            let bangs = shots_sounds(snap.shots@, my_slot, snap.shots@.len() as int);
            let hurt = me.health < v.prev_self.health;
            let pickup = me.ammo_reserve > v.prev_self.ammo_reserve || me.grenades
                > v.prev_self.grenades;
            let at = old_n + bangs.len() + booms.len();
            &&& sfx.len() == at + (if hurt {
                1int
            } else {
                0
            }) + (if pickup {
                1int
            } else {
                0
            })
            &&& sfx.take(old_n) == v.sfx
            &&& sfx.subrange(old_n, old_n + bangs.len()) == bangs
            &&& forall|b: int|
                0 <= b < booms.len() ==> sfx[old_n + bangs.len() + b] == (Sfx::Explosion {
                    dist: (#[trigger] booms[b]).dist,
                })
            &&& hurt ==> sfx[at] is Hurt
            &&& pickup ==> sfx.last() is Pickup
        }),
{
    lemma_own_row(snap, my_slot, i, 0);
    let sfx = after_event(v, NetEvent::Snap(snap)).sfx;
    let old_n = v.sfx.len() as int;
    let bangs = shots_sounds(snap.shots@, my_slot, snap.shots@.len() as int);
    assert(sfx.take(old_n) =~= v.sfx);
    assert(sfx.subrange(old_n, old_n + bangs.len()) =~= bangs);
}

/// The sounds of a snapshot's shots are those of each shot, one after the other.
pub proof fn law_shot_sounds_follow_the_shots(shots: Seq<WireShot>, my_slot: u8, n: int, i: int)
    requires
        0 <= i < n <= shots.len(),
    ensures
        ({
            let all = shots_sounds(shots, my_slot, n);
            let at = shots_sounds(shots, my_slot, i).len() as int;
            let here = shot_sounds(shots[i], my_slot);
            &&& at + here.len() <= all.len()
            &&& all.subrange(at, at + here.len()) == here
            &&& i + 1 == n ==> at + here.len() == all.len()
            &&& at >= i
        }),
    decreases n,
{
    let all = shots_sounds(shots, my_slot, n);
    let at = shots_sounds(shots, my_slot, i).len() as int;
    let here = shot_sounds(shots[i], my_slot);
    if i > 0 {
        law_shot_sounds_follow_the_shots(shots, my_slot, i, i - 1);
    }
    if i < n - 1 {
        law_shot_sounds_follow_the_shots(shots, my_slot, n - 1, i);
        let before = shots_sounds(shots, my_slot, n - 1);
        assert(all.subrange(at, at + here.len()) =~= before.subrange(at, at + here.len()));
    } else {
        assert(all.subrange(at, at + here.len()) =~= here);
    }
}

/// The weapon recoils for our shots and flashes are due where our shots hit: one
/// for each such shot, nobody else's.
pub proof fn law_own_shots_are_ours(shots: Seq<WireShot>, my_slot: u8, n: int)
    requires
        0 <= n <= shots.len(),
    ensures
        own_shots(shots, my_slot, n) == shots.take(n).filter(|s: WireShot| s.slot == my_slot).len(),
        own_hits(shots, my_slot, n) == shots.take(n).filter(
            |s: WireShot| s.slot == my_slot && s.hit_kind != 0,
        ).map_values(|s: WireShot| s.end),
    decreases n,
{
    let mine = |s: WireShot| s.slot == my_slot;
    let hit = |s: WireShot| s.slot == my_slot && s.hit_kind != 0;
    let end = |s: WireShot| s.end;
    reveal(Seq::filter);
    if n > 0 {
        law_own_shots_are_ours(shots, my_slot, n - 1);
        assert(shots.take(n).drop_last() =~= shots.take(n - 1));
        assert(shots.take(n).last() == shots[n - 1]);
        let before = shots.take(n - 1).filter(hit);
        assert(before.push(shots[n - 1]).map_values(end) =~= before.map_values(end).push(
            shots[n - 1].end,
        ));
    } else {
        assert(shots.take(0).filter(hit).map_values(end) =~= Seq::<QPos>::empty());
    }
}

/// A snapshot leaves what it does not speak of, remembers our vitals for the next
/// one, and is itself remembered.
pub proof fn law_snapshots_are_remembered(v: GameView, snap: Snapshot, my_slot: u8, i: int)
    requires
        v.session.slot() == Some(my_slot),
        is_own_row(snap, my_slot, i),
    ensures
        ({
            let after = after_event(v, NetEvent::Snap(snap));
            let me = snap.players@[i];
            let shots = snap.shots@;
            let fired = v.vm_kick + own_shots(shots, my_slot, shots.len() as int);
            &&& after.latest == Some(snap)
            &&& after.prev_self.health == me.health
            &&& after.prev_self.ammo_reserve == me.ammo_reserve
            &&& after.prev_self.grenades == me.grenades
            &&& fired <= u32::MAX ==> after.vm_kick == fired
            &&& fired > u32::MAX ==> after.vm_kick == u32::MAX
            &&& after.hit_ends == v.hit_ends + own_hits(shots, my_slot, shots.len() as int)
            &&& after.session == v.session
            &&& after.my_id == v.my_id
            &&& after.lobby == v.lobby
            &&& after.last_stats == v.last_stats
            &&& after.roster == v.roster
            &&& after.voice_rx == v.voice_rx
        }),
{
    lemma_own_row(snap, my_slot, i, 0);
}

/// A snapshot's plan serves every listed player but ourselves, and every listed
/// zombie, each by its own entity; and it removes exactly the entities of those
/// that are not listed.
pub proof fn law_plans_follow_the_snapshot(
    plan: SnapPlan,
    snap: Snapshot,
    my_slot: u8,
    slots: Seq<u16>,
    ids: Seq<u16>,
)
    requires
        plans_remotes(plan, snap, my_slot, slots, ids),
        slots.len() <= usize::MAX,
        ids.len() <= usize::MAX,
    ensures
        plan.players.upserts@.len() == snap.players@.filter(
            |row: WirePlayer| row.slot != my_slot,
        ).len(),
        forall|r: int|
            0 <= r < snap.players@.len() && (#[trigger] snap.players@[r]).slot != my_slot
                ==> exists|k: int|
                0 <= k < plan.players.upserts@.len() && crate::remotes::serves(
                    #[trigger] plan.players.upserts@[k],
                    slots,
                    r,
                    snap.players@[r].slot as u16,
                ),
        forall|e: int|
            0 <= e < slots.len() ==> (plan.players.gone@.contains(e as usize)
                <==> !crate::remotes::has_other(snap.players@, my_slot, #[trigger] slots[e])),
        plan.zombies.upserts@.len() == snap.zombies@.len(),
        forall|r: int|
            0 <= r < snap.zombies@.len() ==> crate::remotes::serves(
                #[trigger] plan.zombies.upserts@[r],
                ids,
                r,
                snap.zombies@[r].id,
            ),
        forall|e: int|
            0 <= e < ids.len() ==> (plan.zombies.gone@.contains(e as usize)
                <==> !crate::remotes::has_zombie(snap.zombies@, #[trigger] ids[e])),
{
    assert(snap.players.len() <= usize::MAX && snap.zombies.len() <= usize::MAX);
    crate::remotes::law_scene_shows_the_other_players(slots, snap.players@, my_slot);
    crate::remotes::law_scene_shows_the_zombies(ids, snap.zombies@);
}

} // verus!
