//! What the in-match display shows: visibility, labels, rows and which world
//! markers exist.

use std::collections::VecDeque;
use vstd::prelude::*;
use crate::scalar::F32;
use crate::game::{find_row, Session};
use crate::seams::VisualEvent;
use crate::text::push_decimal;
use crate::voice::VoiceState;
use crate::wire::{MatchStats, Snapshot, WireGrenade, WireLoot, WirePlayer};

verus! {

// ---- visibility -------------------------------------------------------------

/// Which parts of the display show.
#[derive(Clone, Copy, Debug, PartialEq, Eq, Structural)]
pub struct HudGate {
    /// Panels around the edge.
    pub chrome: bool,
    pub crosshair: bool,
    /// The statistics overlay.
    pub stats: bool,
    /// Combat effects in the world.
    pub fx: bool,
    /// Vignette, pause overlay and death banner are hidden whatever they say.
    pub hide_overlays: bool,
}

/// Panels, crosshair and effects show while playing, the statistics after; the
/// full-screen overlays cannot outlast play.
pub fn gate_visibility(session: Session) -> (r: HudGate)
    ensures
        r == (HudGate {
            chrome: session is Playing,
            crosshair: session is Playing,
            stats: session is Ended,
            fx: session is Playing,
            hide_overlays: !(session is Playing),
        }),
{
    let is_playing: bool = matches!(session, Session::Playing { .. });
    HudGate {
        chrome: is_playing,
        crosshair: is_playing,
        stats: matches!(session, Session::Ended { .. }),
        fx: is_playing,
        hide_overlays: !is_playing,
    }
}

/// Inset of the bottom panels, in pixels: in touch mode they clear the thumbs.
pub fn hud_bottom_inset(touch: bool) -> (r: u32)
    ensures
        r == (if touch {
            200u32
        } else {
            28u32
        }),
{
    if touch {
        200
    } else {
        28
    }
}

/// The pause key works only while playing.
pub fn pause_key(session: Session, just_pressed: bool) -> (toggle: bool)
    ensures
        toggle == (session is Playing && just_pressed),
{
    matches!(session, Session::Playing { .. }) && just_pressed
}

/// The latest snapshot says that the match is paused.
pub fn paused_overlay(latest: &Option<Snapshot>) -> (r: bool)
    ensures
        r == (latest is Some && latest->0.paused),
{
    match latest {
        Some(s) => s.paused,
        None => false,
    }
}

/// Our row of the latest snapshot.
pub open spec fn own_latest(latest: Option<Snapshot>, my_slot: u8) -> Option<WirePlayer> {
    match latest {
        Some(s) => crate::game::own_row(s, my_slot),
        None => None,
    }
}

fn my_player(latest: &Option<Snapshot>, my_slot: u8) -> (r: Option<WirePlayer>)
    ensures
        r == own_latest(*latest, my_slot),
{
    match latest {
        Some(s) => find_player(&s.players, my_slot),
        None => None,
    }
}

/// The first row of the player in `slot`.
pub open spec fn player_in(players: Seq<WirePlayer>, slot: u8) -> Option<WirePlayer> {
    match crate::game::row_from(players, slot, 0) {
        Some(i) => Some(players[i]),
        None => None,
    }
}

fn find_player(players: &Vec<WirePlayer>, slot: u8) -> (r: Option<WirePlayer>)
    ensures
        r == player_in(players@, slot),
{
    match find_row(players, slot) {
        Some(i) => Some(players[i]),
        None => None,
    }
}

/// The banner shows while we are dead and the team fights on. Outside a match it
/// is left alone (`None`).
pub fn death_banner(session: Session, latest: &Option<Snapshot>) -> (r: Option<bool>)
    ensures
        r == (match session.slot() {
            Some(slot) => Some(
                own_latest(*latest, slot) is Some && !own_latest(*latest, slot)->0.alive,
            ),
            None => None,
        }),
{
    match session.my_slot() {
        Some(slot) => match my_player(latest, slot) {
            Some(me) => Some(!me.alive),
            None => Some(false),
        },
        None => None,
    }
}

// ---- flash and vignette -------------------------------------------------------

/// What the display remembers between frames, besides its timers.
#[derive(Clone, Copy, Debug, PartialEq, Eq, Structural)]
pub struct HudLocal {
    pub prev_health: Option<u8>,
    /// The last own hit was a kill.
    pub crosshair_kill: bool,
}

impl Default for HudLocal {
    fn default() -> (r: Self)
        ensures
            r == (HudLocal { prev_health: None, crosshair_kill: false }),
    {
        HudLocal { prev_health: None, crosshair_kill: false }
    }
}

/// An own shot that hit.
pub open spec fn own_hit(ev: VisualEvent) -> bool {
    ev matches VisualEvent::Shot { slot, end, hit_kind, from_me } && from_me && hit_kind >= 1
}

/// An own shot that killed.
pub open spec fn own_kill(ev: VisualEvent) -> bool {
    ev matches VisualEvent::Shot { slot, end, hit_kind, from_me } && from_me && hit_kind >= 2
}

/// Whether the crosshair shows a kill after the first `n` events: the last own
/// hit decides.
pub open spec fn kill_mark(start: bool, events: Seq<VisualEvent>, n: int) -> bool
    decreases n,
{
    if n <= 0 {
        start
    } else if own_hit(events[n - 1]) {
        own_kill(events[n - 1])
    } else {
        kill_mark(start, events, n - 1)
    }
}

/// Some event is an own hit.
pub open spec fn any_own_hit(events: Seq<VisualEvent>) -> bool {
    exists|i: int| 0 <= i < events.len() && own_hit(#[trigger] events[i])
}

/// Whose muzzle a tracer starts at.
#[derive(Clone, Copy, Debug, PartialEq, Eq, Structural)]
pub enum MuzzleSource {
    /// Our own predicted eye.
    Own,
    /// The eye of this row of the latest snapshot.
    Row(usize),
    /// Nobody known: the world's origin.
    Nowhere,
}

/// Short-lived effects in the world.
#[derive(Clone, Copy, Debug, PartialEq, Eq, Structural)]
pub enum FxKind {
    Tracer,
    Spark,
    Boom,
}

/// Bit pattern of how long an effect lasts: 0.08, 0.15 and 0.35 seconds.
pub open spec fn fx_life(kind: FxKind) -> F32 {
    match kind {
        FxKind::Tracer => F32 { bits: 0x3da3_d70a },
        FxKind::Spark => F32 { bits: 0x3e19_999a },
        FxKind::Boom => F32 { bits: 0x3eb3_3333 },
    }
}

/// Whether an effect's time is up.
pub fn fx_done(kind: FxKind, age: F32) -> (r: bool)
    ensures
        r == fx_life(kind).at_most(age),
{
    let life = match kind {
        FxKind::Tracer => F32::from_bits(0x3da3_d70a),
        FxKind::Spark => F32::from_bits(0x3e19_999a),
        FxKind::Boom => F32::from_bits(0x3eb3_3333),
    };
    life.le(age)
}

/// How the crosshair is drawn.
#[derive(Clone, Copy, Debug, PartialEq, Eq, Structural)]
pub enum Crosshair {
    Idle,
    Hit,
    Kill,
}

/// Whose muzzle a shot from `slot` starts at.
pub fn muzzle_for_slot(slot: u8, from_me: bool, my_slot: Option<u8>, latest: &Option<Snapshot>) -> (r: MuzzleSource)
    ensures
        from_me || my_slot == Some(slot) ==> r is Own,
        !(from_me || my_slot == Some(slot)) ==> match latest {
            Some(s) => match crate::game::row_from(s.players@, slot, 0) {
                Some(i) => r is Row && r->Row_0 == i,
                None => r is Nowhere,
            },
            None => r is Nowhere,
        },
{
    let mine: bool = match my_slot {
        Some(s) => s == slot,
        None => false,
    };
    if from_me || mine {
        return MuzzleSource::Own;
    }
    match latest {
        Some(s) => match find_row(&s.players, slot) {
            Some(i) => MuzzleSource::Row(i),
            None => MuzzleSource::Nowhere,
        },
        None => MuzzleSource::Nowhere,
    }
}

impl HudLocal {
    /// The crosshair while `flash` seconds of a flash are left.
    pub fn update_crosshair(&self, flash: F32) -> (r: Crosshair)
        ensures
            r == (if !(F32 { bits: 0 }).below(flash) {
                Crosshair::Idle
            } else if self.crosshair_kill {
                Crosshair::Kill
            } else {
                Crosshair::Hit
            }),
    {
        if !F32::from_bits(0).lt(flash) {
            Crosshair::Idle
        } else if self.crosshair_kill {
            Crosshair::Kill
        } else {
            Crosshair::Hit
        }
    }

    /// A new match begins: nothing of the old one still glows. The result asks
    /// for the timers to be cleared too.
    pub fn reset_hud_on_match_start(&mut self, session: Session, changed: bool) -> (reset: bool)
        ensures
            reset == (changed && session is Playing),
            *final(self) == (if reset {
                HudLocal { prev_health: None, crosshair_kill: false }
            } else {
                *old(self)
            }),
    {
        if changed && matches!(session, Session::Playing { .. }) {
            self.prev_health = None;
            self.crosshair_kill = false;
            true
        } else {
            false
        }
    }

    /// Takes our latest health. The result asks for the vignette: health fell
    /// since we last looked.
    pub fn observe_health(&mut self, session: Session, latest: &Option<Snapshot>) -> (hurt: bool)
        ensures
            ({
                let me = match session.slot() {
                    Some(slot) => own_latest(*latest, slot),
                    None => None,
                };
                match me {
                    Some(row) => {
                        &&& hurt == (old(self).prev_health is Some && row.health
                            < old(self).prev_health->0)
                        &&& *final(self) == (HudLocal {
                            prev_health: Some(row.health),
                            ..*old(self)
                        })
                    },
                    None => !hurt && *final(self) == *old(self),
                }
            }),
    {
        match session.my_slot() {
            Some(slot) => match my_player(latest, slot) {
                Some(me) => {
                    let hurt: bool = match self.prev_health {
                        Some(prev) => me.health < prev,
                        None => false,
                    };
                    self.prev_health = Some(me.health);
                    hurt
                },
                None => false,
            },
            None => false,
        }
    }

    /// Takes every queued effect, in order. The flag asks for the crosshair to
    /// flash.
    pub fn drain_fx(&mut self, queue: &mut VecDeque<VisualEvent>) -> (r: (Vec<VisualEvent>, bool))
        ensures
            r.0@ == old(queue)@,
            r.1 == any_own_hit(old(queue)@),
            final(queue)@ == Seq::<VisualEvent>::empty(),
            *final(self) == (HudLocal {
                crosshair_kill: kill_mark(
                    old(self).crosshair_kill,
                    old(queue)@,
                    old(queue)@.len() as int,
                ),
                ..*old(self)
            }),
    {
        let ghost start = *self;
        let ghost q = queue@;
        let mut out: Vec<VisualEvent> = Vec::new();
        let mut flash: bool = false;
        let ghost mut n: int = 0;
        assert(q.skip(0) =~= q);
        while queue.len() > 0
            invariant
                0 <= n <= q.len(),
                queue@ == q.skip(n),
                out@ == q.take(n),
                flash == any_own_hit(q.take(n)),
                *self == (HudLocal { crosshair_kill: kill_mark(start.crosshair_kill, q, n), ..start }),
            decreases queue@.len(),
        {
            match queue.pop_front() {
                Some(ev) => {
                    assert(ev == q[n]);
                    match ev {
                        VisualEvent::Shot { hit_kind, from_me, .. } => {
                            if from_me && hit_kind >= 1 {
                                flash = true;
                                self.crosshair_kill = hit_kind >= 2;
                            }
                        },
                        VisualEvent::Boom { .. } => {},
                    }
                    out.push(ev);
                    proof {
                        let now = q.take(n);
                        let next = q.take(n + 1);
                        assert(next[n] == ev);
                        if any_own_hit(now) {
                            let i = choose|i: int| 0 <= i < now.len() && own_hit(#[trigger] now[i]);
                            assert(own_hit(next[i]));
                        }
                        if any_own_hit(next) && !own_hit(ev) {
                            let i = choose|i: int| 0 <= i < next.len() && own_hit(#[trigger] next[i]);
                            assert(own_hit(now[i]));
                        }
                        n = n + 1;
                        assert(queue@ =~= q.skip(n));
                        assert(out@ =~= q.take(n));
                    }
                },
                None => {},
            }
        }
        assert(q.take(n) =~= q);
        (out, flash)
    }
}

// ---- labels -------------------------------------------------------------------

/// Grenade pips: one dot per grenade.
pub open spec fn pips(n: nat) -> Seq<char> {
    Seq::new(n, |i: int| '●')
}

/// The labels of the vitals panel.
#[derive(Debug, PartialEq, Eq)]
pub struct VitalsLabels {
    pub health: String,
    pub ammo: String,
    pub grenades: String,
}

/// The vitals panel shows these labels for this row.
pub open spec fn shows_vitals(labels: VitalsLabels, me: WirePlayer) -> bool {
    &&& labels.health@ == crate::text::decimal(me.health as nat)
    &&& labels.ammo@ == crate::text::decimal(me.ammo_mag as nat) + " / "@ + crate::text::decimal(
        me.ammo_reserve as nat,
    )
    &&& labels.grenades@ == pips(me.grenades as nat)
}

/// The vitals panel; it stays as it is without a match, a snapshot or a row of
/// ours.
pub fn update_vitals(session: Session, latest: &Option<Snapshot>) -> (r: Option<VitalsLabels>)
    ensures
        ({
            let me = match session.slot() {
                Some(slot) => own_latest(*latest, slot),
                None => None,
            };
            match me {
                Some(row) => r is Some && shows_vitals(r->0, row),
                None => r is None,
            }
        }),
{
    let slot: u8 = match session.my_slot() {
        Some(s) => s,
        None => {
            return None;
        },
    };
    let me = match my_player(latest, slot) {
        Some(p) => p,
        None => {
            return None;
        },
    };
    let mut health: String = String::new();
    push_decimal(&mut health, me.health as u64);
    assert(health@ =~= crate::text::decimal(me.health as nat));
    let mut ammo: String = String::new();
    push_decimal(&mut ammo, me.ammo_mag as u64);
    assert(ammo@ =~= crate::text::decimal(me.ammo_mag as nat));
    ammo.append(" / ");
    push_decimal(&mut ammo, me.ammo_reserve as u64);
    let mut grenades: String = String::new();
    assert(grenades@ =~= pips(0));
    for i in 0..me.grenades
        invariant
            grenades@ == pips(i as nat),
    {
        grenades.push('●');
        assert(grenades@ =~= pips((i + 1) as nat));
    }
    Some(VitalsLabels { health, ammo, grenades })
}

/// What the microphone chip shows.
#[derive(Clone, Copy, Debug, PartialEq, Eq, Structural)]
pub enum MicChip {
    Denied,
    Muted,
    Live,
    /// Unmuted, and no microphone yet.
    Waiting,
    On,
}

/// The microphone chip of a voice state. A refusal outranks mute, mute outranks
/// sending, and sending outranks readiness.
pub open spec fn chip_of(v: VoiceState) -> MicChip {
    if v.mic_denied {
        MicChip::Denied
    } else if v.muted {
        MicChip::Muted
    } else if v.self_live {
        MicChip::Live
    } else if !v.mic_ready {
        MicChip::Waiting
    } else {
        MicChip::On
    }
}

/// The chip's label.
pub open spec fn chip_label(chip: MicChip) -> Seq<char> {
    match chip {
        MicChip::Denied => "MIC · DENIED"@,
        MicChip::Muted => "MIC · MUTED"@,
        MicChip::Live => "MIC · LIVE"@,
        MicChip::Waiting => "MIC · …"@,
        MicChip::On => "MIC · ON"@,
    }
}

pub fn update_mic_chip(voice: &VoiceState) -> (r: (MicChip, &'static str))
    ensures
        r.0 == chip_of(*voice),
        r.1@ == chip_label(r.0),
{
    if voice.mic_denied {
        (MicChip::Denied, "MIC · DENIED")
    } else if voice.muted {
        (MicChip::Muted, "MIC · MUTED")
    } else if voice.self_live {
        (MicChip::Live, "MIC · LIVE")
    } else if !voice.mic_ready {
        (MicChip::Waiting, "MIC · …")
    } else {
        (MicChip::On, "MIC · ON")
    }
}

/// The chip never claims to be live while muted, and shows a muted client as
/// muted unless the microphone was refused.
pub proof fn law_chip_tells_mute(v: VoiceState)
    ensures
        v.muted ==> chip_of(v) is Muted || chip_of(v) is Denied,
        chip_of(v) is Live ==> !v.muted && v.self_live,
{
}

/// The labels of the match panel.
#[derive(Debug, PartialEq, Eq)]
pub struct MatchLabels {
    pub kills: String,
    pub zombies: String,
    pub wave: String,
}

fn labelled(prefix: &str, n: u64) -> (r: String)
    ensures
        r@ == prefix@ + crate::text::decimal(n as nat),
{
    let mut s: String = prefix.to_owned();
    push_decimal(&mut s, n);
    s
}

/// The match panel: our kills, the zombies alive, and the wave, which counts
/// from one.
pub fn update_top_left(session: Session, latest: &Option<Snapshot>) -> (r: Option<MatchLabels>)
    ensures
        match (session.slot(), *latest) {
            (Some(slot), Some(snap)) => {
                let kills = match crate::game::own_row(snap, slot) {
                    Some(me) => me.kills as nat,
                    None => 0,
                };
                &&& r is Some
                &&& r->0.kills@ == "KILLS "@ + crate::text::decimal(kills)
                &&& r->0.zombies@ == "ZEDS "@ + crate::text::decimal(snap.zombies@.len())
                &&& r->0.wave@ == "WAVE "@ + crate::text::decimal((snap.difficulty + 1) as nat)
            },
            _ => r is None,
        },
{
    match (session.my_slot(), latest) {
        (Some(slot), Some(snap)) => {
            let kills: u16 = match find_player(&snap.players, slot) {
                Some(me) => me.kills,
                None => 0,
            };
            Some(
                MatchLabels {
                    kills: labelled("KILLS ", kills as u64),
                    zombies: labelled("ZEDS ", snap.zombies.len() as u64),
                    wave: labelled("WAVE ", snap.difficulty as u64 + 1),
                },
            )
        },
        _ => None,
    }
}

/// The labelled parts of the display.
#[derive(Clone, Copy, Debug, PartialEq, Eq, Structural)]
pub enum HudPart {
    MicChip,
    Health,
    Ammo,
    Grenades,
    Kills,
    Zombies,
    Wave,
    Paused,
    Death,
    StatsTitle,
    StatsLine,
    BackButton,
}

/// What a part reads before the first update.
pub open spec fn first_label(part: HudPart) -> Seq<char> {
    match part {
        HudPart::MicChip => "MIC · MUTED"@,
        HudPart::Health => "100"@,
        HudPart::Ammo => "0 / 0"@,
        HudPart::Grenades => ""@,
        HudPart::Kills => "KILLS 0"@,
        HudPart::Zombies => "ZEDS 0"@,
        HudPart::Wave => "WAVE 1"@,
        HudPart::Paused => "PAUSED — [P] RESUME"@,
        HudPart::Death => "YOU DIED — SPECTATING"@,
        HudPart::StatsTitle => "OVERRUN"@,
        HudPart::StatsLine => ""@,
        HudPart::BackButton => "[ BACK TO LOBBY ]"@,
    }
}

pub fn initial_label(part: HudPart) -> (r: &'static str)
    ensures
        r@ == first_label(part),
{
    match part {
        HudPart::MicChip => "MIC · MUTED",
        HudPart::Health => "100",
        HudPart::Ammo => "0 / 0",
        HudPart::Grenades => "",
        HudPart::Kills => "KILLS 0",
        HudPart::Zombies => "ZEDS 0",
        HudPart::Wave => "WAVE 1",
        HudPart::Paused => "PAUSED — [P] RESUME",
        HudPart::Death => "YOU DIED — SPECTATING",
        HudPart::StatsTitle => "OVERRUN",
        HudPart::StatsLine => "",
        HudPart::BackButton => "[ BACK TO LOBBY ]",
    }
}

// ---- teammates ------------------------------------------------------------------

/// A roster entry that gets a row: everyone but us.
pub open spec fn is_teammate(entry: (u8, String, bool), my_slot: u8) -> bool {
    !entry.2 && entry.0 != my_slot
}

/// Some teammate has this slot.
pub open spec fn teammate_in(roster: Seq<(u8, String, bool)>, my_slot: u8, slot: u8) -> bool {
    exists|i: int|
        0 <= i < roster.len() && is_teammate(#[trigger] roster[i], my_slot) && roster[i].0 == slot
}

/// Which of the first `n` rows no longer belong to a teammate, in order.
pub open spec fn stale_rows(
    rows: Seq<u8>,
    roster: Seq<(u8, String, bool)>,
    my_slot: u8,
    n: int,
) -> Seq<usize>
    decreases n,
{
    if n <= 0 {
        Seq::empty()
    } else if !teammate_in(roster, my_slot, rows[n - 1]) {
        stale_rows(rows, roster, my_slot, n - 1).push((n - 1) as usize)
    } else {
        stale_rows(rows, roster, my_slot, n - 1)
    }
}

/// Which of the first `n` roster entries are teammates without a row, in order.
pub open spec fn missing_rows(
    rows: Seq<u8>,
    roster: Seq<(u8, String, bool)>,
    my_slot: u8,
    n: int,
) -> Seq<usize>
    decreases n,
{
    if n <= 0 {
        Seq::empty()
    } else if is_teammate(roster[n - 1], my_slot) && !rows.contains(roster[n - 1].0) {
        missing_rows(rows, roster, my_slot, n - 1).push((n - 1) as usize)
    } else {
        missing_rows(rows, roster, my_slot, n - 1)
    }
}

/// The first roster entry at or after `i` with this slot.
pub open spec fn roster_from(roster: Seq<(u8, String, bool)>, slot: u8, i: int) -> Option<int>
    decreases roster.len() - i,
{
    if i >= roster.len() {
        None
    } else if roster[i].0 == slot {
        Some(i)
    } else {
        roster_from(roster, slot, i + 1)
    }
}

/// What a teammate's row shows.
#[derive(Debug, PartialEq, Eq)]
pub struct TeammateRow {
    /// The row's place among the existing ones.
    pub row: usize,
    pub name: String,
    pub health: u8,
    /// Marked as dead.
    pub dead: bool,
}

/// The row shows the name on the roster, and the health and life of the latest
/// snapshot; who is not in the snapshot counts as dead.
pub open spec fn shows_teammate(
    shown: TeammateRow,
    slot: u8,
    roster: Seq<(u8, String, bool)>,
    snap: Snapshot,
) -> bool {
    let p = player_in(snap.players@, slot);
    &&& shown.name@ == (match roster_from(roster, slot, 0) {
        Some(i) => roster[i].1@,
        None => "?"@,
    })
    &&& shown.health == (match p {
        Some(pl) => pl.health,
        None => 0u8,
    })
    &&& shown.dead == (match p {
        Some(pl) => !pl.alive,
        None => true,
    })
}

/// How the teammate list changes.
#[derive(Debug, PartialEq, Eq)]
pub struct TeammatePlan {
    /// Rows to remove.
    pub gone: Vec<usize>,
    /// Roster entries that get a new row.
    pub spawns: Vec<usize>,
    /// What the rows that stay show.
    pub refresh: Vec<TeammateRow>,
}

/// Which of the first `n` rows stay, in order.
pub open spec fn kept_rows(
    rows: Seq<u8>,
    roster: Seq<(u8, String, bool)>,
    my_slot: u8,
    n: int,
) -> Seq<usize>
    decreases n,
{
    if n <= 0 {
        Seq::empty()
    } else if teammate_in(roster, my_slot, rows[n - 1]) {
        kept_rows(rows, roster, my_slot, n - 1).push((n - 1) as usize)
    } else {
        kept_rows(rows, roster, my_slot, n - 1)
    }
}

fn has_teammate(roster: &Vec<(u8, String, bool)>, my_slot: u8, slot: u8) -> (r: bool)
    ensures
        r == teammate_in(roster@, my_slot, slot),
{
    for i in 0..roster.len()
        invariant
            forall|j: int|
                0 <= j < i ==> !(is_teammate(#[trigger] roster@[j], my_slot) && roster@[j].0
                    == slot),
    {
        if !roster[i].2 && roster[i].0 != my_slot && roster[i].0 == slot {
            assert(is_teammate(roster@[i as int], my_slot));
            return true;
        }
    }
    false
}

fn holds_slot(rows: &Vec<u8>, slot: u8) -> (r: bool)
    ensures
        r == rows@.contains(slot),
{
    for i in 0..rows.len()
        invariant
            forall|j: int| 0 <= j < i ==> rows@[j] != slot,
    {
        if rows[i] == slot {
            return true;
        }
    }
    false
}

fn roster_name(roster: &Vec<(u8, String, bool)>, slot: u8) -> (r: Option<String>)
    ensures
        match roster_from(roster@, slot, 0) {
            Some(i) => r is Some && r->0@ == roster@[i].1@,
            None => r is None,
        },
{
    for i in 0..roster.len()
        invariant
            roster_from(roster@, slot, 0) == roster_from(roster@, slot, i as int),
    {
        if roster[i].0 == slot {
            return Some(roster[i].1.clone());
        }
    }
    None
}

/// How the teammate list changes, given the slots of the rows it has. It stays
/// as it is without a match or a snapshot.
pub fn update_teammates(
    session: Session,
    latest: &Option<Snapshot>,
    roster: &Vec<(u8, String, bool)>,
    rows: &Vec<u8>,
) -> (r: Option<TeammatePlan>)
    ensures
        match (session.slot(), *latest) {
            (Some(slot), Some(snap)) => {
                let kept = kept_rows(rows@, roster@, slot, rows@.len() as int);
                &&& r is Some
                &&& r->0.gone@ == stale_rows(rows@, roster@, slot, rows@.len() as int)
                &&& r->0.spawns@ == missing_rows(rows@, roster@, slot, roster@.len() as int)
                &&& r->0.refresh@.len() == kept.len()
                &&& forall|k: int|
                    0 <= k < kept.len() ==> (#[trigger] r->0.refresh@[k]).row == kept[k]
                        && shows_teammate(
                        r->0.refresh@[k],
                        rows@[kept[k] as int],
                        roster@,
                        snap,
                    )
            },
            _ => r is None,
        },
{
    match (session.my_slot(), latest) {
        (Some(slot), Some(snap)) => {
            let mut gone: Vec<usize> = Vec::new();
            let mut refresh: Vec<TeammateRow> = Vec::new();
            for i in 0..rows.len()
                invariant
                    gone@ == stale_rows(rows@, roster@, slot, i as int),
                    ({
                        let kept = kept_rows(rows@, roster@, slot, i as int);
                        &&& refresh@.len() == kept.len()
                        &&& forall|k: int|
                            0 <= k < kept.len() ==> (#[trigger] refresh@[k]).row == kept[k]
                                && shows_teammate(
                                refresh@[k],
                                rows@[kept[k] as int],
                                roster@,
                                *snap,
                            )
                    }),
            {
                let row: u8 = rows[i];
                if has_teammate(roster, slot, row) {
                    let name: String = match roster_name(roster, row) {
                        Some(n) => n,
                        None => "?".to_owned(),
                    };
                    let (health, dead): (u8, bool) = match find_player(&snap.players, row) {
                        Some(p) => (p.health, !p.alive),
                        None => (0, true),
                    };
                    refresh.push(TeammateRow { row: i, name, health, dead });
                } else {
                    gone.push(i);
                }
            }
            let mut spawns: Vec<usize> = Vec::new();
            for i in 0..roster.len()
                invariant
                    spawns@ == missing_rows(rows@, roster@, slot, i as int),
            {
                if !roster[i].2 && roster[i].0 != slot && !holds_slot(rows, roster[i].0) {
                    spawns.push(i);
                }
            }
            Some(TeammatePlan { gone, spawns, refresh })
        },
        _ => None,
    }
}

/// Once the list is brought up to date it has a row for a slot exactly if a
/// teammate has it.
pub proof fn law_rows_follow_the_roster(
    rows: Seq<u8>,
    roster: Seq<(u8, String, bool)>,
    my_slot: u8,
    slot: u8,
)
    requires
        rows.len() <= usize::MAX,
        roster.len() <= usize::MAX,
    ensures
        ({
            let kept = kept_rows(rows, roster, my_slot, rows.len() as int);
            let new = missing_rows(rows, roster, my_slot, roster.len() as int);
            let has_row = (exists|k: int|
                0 <= k < kept.len() && rows[(#[trigger] kept[k]) as int] == slot) || (exists|k: int|
                0 <= k < new.len() && roster[(#[trigger] new[k]) as int].0 == slot);
            has_row <==> teammate_in(roster, my_slot, slot)
        }),
{
    let kept = kept_rows(rows, roster, my_slot, rows.len() as int);
    let new = missing_rows(rows, roster, my_slot, roster.len() as int);
    lemma_kept(rows, roster, my_slot, rows.len() as int);
    lemma_missing(rows, roster, my_slot, roster.len() as int);
    if teammate_in(roster, my_slot, slot) {
        if rows.contains(slot) {
            let i = choose|i: int| 0 <= i < rows.len() && rows[i] == slot;
            assert(kept.contains(i as usize));
            let k = choose|k: int| 0 <= k < kept.len() && kept[k] == i as usize;
            assert(rows[kept[k] as int] == slot);
        } else {
            let i = choose|i: int|
                0 <= i < roster.len() && is_teammate(#[trigger] roster[i], my_slot) && roster[i].0
                    == slot;
            assert(new.contains(i as usize));
            let k = choose|k: int| 0 <= k < new.len() && new[k] == i as usize;
            assert(roster[new[k] as int].0 == slot);
        }
    }
    if exists|k: int| 0 <= k < new.len() && roster[(#[trigger] new[k]) as int].0 == slot {
        let k = choose|k: int| 0 <= k < new.len() && roster[(#[trigger] new[k]) as int].0 == slot;
        assert(is_teammate(roster[new[k] as int], my_slot));
    }
}

proof fn lemma_kept(rows: Seq<u8>, roster: Seq<(u8, String, bool)>, my_slot: u8, n: int)
    requires
        0 <= n <= rows.len() <= usize::MAX,
    ensures
        ({
            let kept = kept_rows(rows, roster, my_slot, n);
            &&& forall|i: int|
                0 <= i < n && teammate_in(roster, my_slot, #[trigger] rows[i]) ==> kept.contains(
                    i as usize,
                )
            &&& forall|k: int|
                0 <= k < kept.len() ==> (#[trigger] kept[k]) < n && teammate_in(
                    roster,
                    my_slot,
                    rows[kept[k] as int],
                )
        }),
    decreases n,
{
    if n > 0 {
        lemma_kept(rows, roster, my_slot, n - 1);
        let prev = kept_rows(rows, roster, my_slot, n - 1);
        let now = kept_rows(rows, roster, my_slot, n);
        assert forall|i: int| 0 <= i < n && teammate_in(
            roster,
            my_slot,
            #[trigger] rows[i],
        ) implies now.contains(i as usize) by {
            if i < n - 1 {
                assert(prev.contains(i as usize));
                let k = choose|k: int| 0 <= k < prev.len() && prev[k] == i as usize;
                assert(now[k] == i as usize);
            } else {
                assert(now[prev.len() as int] == i as usize);
            }
        }
    }
}

proof fn lemma_missing(rows: Seq<u8>, roster: Seq<(u8, String, bool)>, my_slot: u8, n: int)
    requires
        0 <= n <= roster.len() <= usize::MAX,
    ensures
        ({
            let new = missing_rows(rows, roster, my_slot, n);
            &&& forall|i: int|
                0 <= i < n && is_teammate(#[trigger] roster[i], my_slot) && !rows.contains(
                    roster[i].0,
                ) ==> new.contains(i as usize)
            &&& forall|k: int|
                0 <= k < new.len() ==> (#[trigger] new[k]) < n && is_teammate(
                    roster[new[k] as int],
                    my_slot,
                )
        }),
    decreases n,
{
    if n > 0 {
        lemma_missing(rows, roster, my_slot, n - 1);
        let prev = missing_rows(rows, roster, my_slot, n - 1);
        let now = missing_rows(rows, roster, my_slot, n);
        assert forall|i: int| 0 <= i < n && is_teammate(#[trigger] roster[i], my_slot)
            && !rows.contains(roster[i].0) implies now.contains(i as usize) by {
            if i < n - 1 {
                assert(prev.contains(i as usize));
                let k = choose|k: int| 0 <= k < prev.len() && prev[k] == i as usize;
                assert(now[k] == i as usize);
            } else {
                assert(now[prev.len() as int] == i as usize);
            }
        }
    }
}

// ---- statistics -------------------------------------------------------------------

/// The rendered measures of one player's statistics.
#[derive(Debug, PartialEq, Eq)]
pub struct Measures {
    /// Accuracy in whole percent.
    pub accuracy: String,
    /// Time alive in whole seconds.
    pub alive_s: String,
}

/// The name on a statistics row: the player's own, else the roster's, else the
/// slot's.
pub open spec fn stats_name(
    name: Seq<char>,
    slot: u8,
    roster: Seq<(u8, String, bool)>,
) -> Seq<char> {
    if name.len() > 0 {
        name
    } else {
        match roster_from(roster, slot, 0) {
            Some(i) => roster[i].1@,
            None => "P"@ + crate::text::decimal(slot as nat),
        }
    }
}

/// A statistics row.
pub open spec fn stats_text(
    name: Seq<char>,
    kills: u32,
    damage: u32,
    accuracy: Seq<char>,
    alive_s: Seq<char>,
) -> Seq<char> {
    name + "  ·  K "@ + crate::text::decimal(kills as nat) + "  ·  DMG "@ + crate::text::decimal(
        damage as nat,
    ) + "  ·  ACC "@ + accuracy + "%  ·  "@ + alive_s + "s"@
}

/// The header of the statistics.
pub open spec fn header_text(duration_s: Seq<char>, killed: u32, peak: u32, wave: nat) -> Seq<char> {
    duration_s + "s  ·  "@ + crate::text::decimal(killed as nat) + " zombies killed  ·  peak horde "@
        + crate::text::decimal(peak as nat) + "  ·  wave "@ + crate::text::decimal(wave)
}

/// One row of the statistics.
#[derive(Debug, PartialEq, Eq)]
pub struct StatsRow {
    pub slot: u8,
    pub text: String,
    /// The existing row to rewrite; `None` for a new one.
    pub row: Option<usize>,
}

/// How the statistics overlay changes.
#[derive(Debug, PartialEq, Eq)]
pub struct StatsPlan {
    pub header: String,
    /// Rows to remove.
    pub gone: Vec<usize>,
    /// A row per player, in order.
    pub rows: Vec<StatsRow>,
}

/// Some player of the statistics has this slot.
pub open spec fn in_stats(stats: MatchStats, slot: u8) -> bool {
    exists|i: int| 0 <= i < stats.players@.len() && (#[trigger] stats.players@[i]).slot == slot
}

/// Which of the first `n` rows belong to nobody in the statistics, in order.
pub open spec fn foreign_rows(rows: Seq<u8>, stats: MatchStats, n: int) -> Seq<usize>
    decreases n,
{
    if n <= 0 {
        Seq::empty()
    } else if !in_stats(stats, rows[n - 1]) {
        foreign_rows(rows, stats, n - 1).push((n - 1) as usize)
    } else {
        foreign_rows(rows, stats, n - 1)
    }
}

/// The last of the first `n` rows with this slot.
pub open spec fn last_row(rows: Seq<u8>, slot: u8, n: int) -> Option<int>
    decreases n,
{
    if n <= 0 {
        None
    } else if rows[n - 1] == slot {
        Some(n - 1)
    } else {
        last_row(rows, slot, n - 1)
    }
}

/// Every row there is.
pub open spec fn all_rows(n: nat) -> Seq<usize> {
    Seq::new(n, |i: int| i as usize)
}

/// This is the row of player `i` of the statistics.
pub open spec fn is_stats_row(
    row: StatsRow,
    stats: MatchStats,
    measures: Seq<Measures>,
    roster: Seq<(u8, String, bool)>,
    rows: Seq<u8>,
    i: int,
) -> bool {
    let p = stats.players@[i];
    &&& row.slot == p.slot
    &&& row.text@ == stats_text(
        stats_name(p.name@, p.slot, roster),
        p.kills,
        p.damage_dealt,
        measures[i].accuracy@,
        measures[i].alive_s@,
    )
    &&& match last_row(rows, p.slot, rows.len() as int) {
        Some(k) => row.row is Some && row.row->0 == k,
        None => row.row is None,
    }
}

fn find_last_row(rows: &Vec<u8>, slot: u8) -> (r: Option<usize>)
    ensures
        match last_row(rows@, slot, rows@.len() as int) {
            Some(k) => r is Some && r->0 == k,
            None => r is None,
        },
{
    let mut i: usize = rows.len();
    while i > 0
        invariant
            i <= rows@.len(),
            last_row(rows@, slot, rows@.len() as int) == last_row(rows@, slot, i as int),
        decreases i,
    {
        i -= 1;
        if rows[i] == slot {
            return Some(i);
        }
    }
    None
}

fn is_in_stats(stats: &MatchStats, slot: u8) -> (r: bool)
    ensures
        r == in_stats(*stats, slot),
{
    for i in 0..stats.players.len()
        invariant
            forall|j: int| 0 <= j < i ==> (#[trigger] stats.players@[j]).slot != slot,
    {
        if stats.players[i].slot == slot {
            return true;
        }
    }
    false
}

fn stats_row_name(name: &String, slot: u8, roster: &Vec<(u8, String, bool)>) -> (r: String)
    ensures
        r@ == stats_name(name@, slot, roster@),
{
    if !name.as_str().is_empty() {
        return name.clone();
    }
    match roster_name(roster, slot) {
        Some(n) => n,
        None => labelled("P", slot as u64),
    }
}

/// The statistics overlay after the match, given the slots of the rows it has.
/// `duration_s` and `measures` are the rendered measures of the match and of
/// each player. Without statistics every row goes.
pub fn update_stats_overlay(
    last: &Option<MatchStats>,
    duration_s: &String,
    measures: &Vec<Measures>,
    roster: &Vec<(u8, String, bool)>,
    rows: &Vec<u8>,
) -> (r: StatsPlan)
    requires
        last is Some ==> measures@.len() == last->0.players@.len(),
    ensures
        match *last {
            None => {
                &&& r.header@ == "…"@
                &&& r.gone@ == all_rows(rows@.len())
                &&& r.rows@ == Seq::<StatsRow>::empty()
            },
            Some(stats) => {
                &&& r.header@ == header_text(
                    duration_s@,
                    stats.zombies_killed,
                    stats.peak_zombies,
                    (stats.difficulty_reached + 1) as nat,
                )
                &&& r.gone@ == foreign_rows(rows@, stats, rows@.len() as int)
                &&& r.rows@.len() == stats.players@.len()
                &&& forall|i: int|
                    0 <= i < r.rows@.len() ==> is_stats_row(
                        #[trigger] r.rows@[i],
                        stats,
                        measures@,
                        roster@,
                        rows@,
                        i,
                    )
            },
        },
{
    match last {
        None => {
            let mut gone: Vec<usize> = Vec::new();
            for i in 0..rows.len()
                invariant
                    gone@ == all_rows(i as nat),
            {
                gone.push(i);
                assert(gone@ =~= all_rows((i + 1) as nat));
            }
            StatsPlan { header: "…".to_owned(), gone, rows: Vec::new() }
        },
        Some(stats) => {
            let mut header: String = duration_s.clone();
            header.append("s  ·  ");
            push_decimal(&mut header, stats.zombies_killed as u64);
            header.append(" zombies killed  ·  peak horde ");
            push_decimal(&mut header, stats.peak_zombies as u64);
            header.append("  ·  wave ");
            push_decimal(&mut header, stats.difficulty_reached as u64 + 1);
            let mut gone: Vec<usize> = Vec::new();
            for i in 0..rows.len()
                invariant
                    gone@ == foreign_rows(rows@, *stats, i as int),
            {
                if !is_in_stats(stats, rows[i]) {
                    gone.push(i);
                }
            }
            let mut out: Vec<StatsRow> = Vec::new();
            for i in 0..stats.players.len()
                invariant
                    measures@.len() == stats.players@.len(),
                    out@.len() == i,
                    forall|k: int|
                        0 <= k < out@.len() ==> is_stats_row(
                            #[trigger] out@[k],
                            *stats,
                            measures@,
                            roster@,
                            rows@,
                            k,
                        ),
            {
                let p = &stats.players[i];
                let mut text: String = stats_row_name(&p.name, p.slot, roster);
                text.append("  ·  K ");
                push_decimal(&mut text, p.kills as u64);
                text.append("  ·  DMG ");
                push_decimal(&mut text, p.damage_dealt as u64);
                text.append("  ·  ACC ");
                text.append(measures[i].accuracy.as_str());
                text.append("%  ·  ");
                text.append(measures[i].alive_s.as_str());
                text.append("s");
                out.push(StatsRow { slot: p.slot, text, row: find_last_row(rows, p.slot) });
            }
            StatsPlan { header, gone, rows: out }
        },
    }
}

/// What the pointer does to a button.
#[derive(Clone, Copy, Debug, PartialEq, Eq, Structural)]
pub enum Interaction {
    Pressed,
    Hovered,
    Away,
}

/// The back button acts once per press: `was_pressed` remembers the press until
/// the pointer lets go.
pub fn stats_back_button(interaction: Interaction, was_pressed: &mut bool) -> (back: bool)
    ensures
        back == (interaction is Pressed && !*old(was_pressed)),
        *final(was_pressed) == (interaction is Pressed),
{
    match interaction {
        Interaction::Pressed => {
            let first: bool = !*was_pressed;
            *was_pressed = true;
            first
        },
        _ => {
            *was_pressed = false;
            false
        },
    }
}

// ---- loot and grenades ----------------------------------------------------------

/// How a loot kind is drawn.
#[derive(Clone, Copy, Debug, PartialEq, Eq, Structural)]
pub enum LootShape {
    Ammo,
    Health,
    Grenade,
}

pub fn loot_shape(kind: u8) -> (r: LootShape)
    ensures
        r == (if kind == 0 {
            LootShape::Ammo
        } else if kind == 1 {
            LootShape::Health
        } else {
            LootShape::Grenade
        }),
{
    match kind {
        0 => LootShape::Ammo,
        1 => LootShape::Health,
        _ => LootShape::Grenade,
    }
}

/// The last of the first `n` ids equal to `id`.
pub open spec fn last_place(ids: Seq<u16>, id: u16, n: int) -> Option<int>
    decreases n,
{
    if n <= 0 {
        None
    } else if ids[n - 1] == id {
        Some(n - 1)
    } else {
        last_place(ids, id, n - 1)
    }
}

/// A marker in the world and the row it follows.
#[derive(Clone, Copy, Debug, PartialEq, Eq, Structural)]
pub struct Follow {
    pub entity: usize,
    pub row: usize,
}

/// How the markers of one sort change.
#[derive(Debug, PartialEq, Eq)]
pub struct MarkerPlan {
    pub follow: Vec<Follow>,
    /// Markers to remove.
    pub gone: Vec<usize>,
    /// Rows that get a new marker.
    pub spawns: Vec<usize>,
}

/// Which of the first `n` markers stay, each with the last row of its id.
pub open spec fn followed(markers: Seq<u16>, rows: Seq<u16>, n: int) -> Seq<Follow>
    decreases n,
{
    if n <= 0 {
        Seq::empty()
    } else {
        match last_place(rows, markers[n - 1], rows.len() as int) {
            Some(r) => followed(markers, rows, n - 1).push(
                Follow { entity: (n - 1) as usize, row: r as usize },
            ),
            None => followed(markers, rows, n - 1),
        }
    }
}

/// Which of the first `n` markers have no row any more.
pub open spec fn vanished(markers: Seq<u16>, rows: Seq<u16>, n: int) -> Seq<usize>
    decreases n,
{
    if n <= 0 {
        Seq::empty()
    } else if last_place(rows, markers[n - 1], rows.len() as int) is None {
        vanished(markers, rows, n - 1).push((n - 1) as usize)
    } else {
        vanished(markers, rows, n - 1)
    }
}

/// Which of the first `n` rows are the last of their id and have no marker yet.
pub open spec fn appeared(markers: Seq<u16>, rows: Seq<u16>, n: int) -> Seq<usize>
    decreases n,
{
    if n <= 0 {
        Seq::empty()
    } else if !markers.contains(rows[n - 1]) && last_place(rows, rows[n - 1], rows.len() as int)
        == Some(n - 1) {
        appeared(markers, rows, n - 1).push((n - 1) as usize)
    } else {
        appeared(markers, rows, n - 1)
    }
}

/// The plan brings the markers in line with the rows.
pub open spec fn plans_markers(plan: MarkerPlan, markers: Seq<u16>, rows: Seq<u16>) -> bool {
    &&& plan.follow@ == followed(markers, rows, markers.len() as int)
    &&& plan.gone@ == vanished(markers, rows, markers.len() as int)
    &&& plan.spawns@ == appeared(markers, rows, rows.len() as int)
}

fn find_last(ids: &Vec<u16>, id: u16) -> (r: Option<usize>)
    ensures
        match last_place(ids@, id, ids@.len() as int) {
            Some(k) => r is Some && r->0 == k,
            None => r is None,
        },
{
    let mut i: usize = ids.len();
    while i > 0
        invariant
            i <= ids@.len(),
            last_place(ids@, id, ids@.len() as int) == last_place(ids@, id, i as int),
        decreases i,
    {
        i -= 1;
        if ids[i] == id {
            return Some(i);
        }
    }
    None
}

fn plan_markers(markers: &Vec<u16>, rows: &Vec<u16>) -> (r: MarkerPlan)
    ensures
        plans_markers(r, markers@, rows@),
{
    let mut follow: Vec<Follow> = Vec::new();
    let mut gone: Vec<usize> = Vec::new();
    for i in 0..markers.len()
        invariant
            follow@ == followed(markers@, rows@, i as int),
            gone@ == vanished(markers@, rows@, i as int),
    {
        match find_last(rows, markers[i]) {
            Some(row) => {
                follow.push(Follow { entity: i, row });
            },
            None => {
                gone.push(i);
            },
        }
    }
    let mut spawns: Vec<usize> = Vec::new();
    for i in 0..rows.len()
        invariant
            spawns@ == appeared(markers@, rows@, i as int),
    {
        let known: bool = match find_last(markers, rows[i]) {
            Some(_) => true,
            None => false,
        };
        proof {
            lemma_last_place(markers@, rows@[i as int], markers@.len() as int);
        }
        let last: bool = match find_last(rows, rows[i]) {
            Some(k) => k == i,
            None => false,
        };
        if !known && last {
            spawns.push(i);
        }
    }
    MarkerPlan { follow, gone, spawns }
}

proof fn lemma_last_place(ids: Seq<u16>, id: u16, n: int)
    requires
        0 <= n <= ids.len(),
    ensures
        match last_place(ids, id, n) {
            Some(k) => 0 <= k < n && ids[k] == id && forall|j: int| k < j < n ==> #[trigger] ids[j] != id,
            None => forall|j: int| 0 <= j < n ==> #[trigger] ids[j] != id,
        },
    decreases n,
{
    if n > 0 {
        lemma_last_place(ids, id, n - 1);
    }
}

/// The ids of a snapshot's loot.
pub open spec fn loot_ids(rows: Seq<WireLoot>) -> Seq<u16> {
    Seq::new(rows.len(), |i: int| rows[i].id)
}

/// The ids of a snapshot's grenades.
pub open spec fn grenade_ids(rows: Seq<WireGrenade>) -> Seq<u16> {
    Seq::new(rows.len(), |i: int| rows[i].id as u16)
}

/// How the loot markers change; without a snapshot there are none.
pub fn sync_loot(markers: &Vec<u16>, latest: &Option<Snapshot>) -> (r: MarkerPlan)
    ensures
        plans_markers(
            r,
            markers@,
            match *latest {
                Some(s) => loot_ids(s.loot@),
                None => Seq::empty(),
            },
        ),
{
    let mut ids: Vec<u16> = Vec::new();
    match latest {
        Some(s) => {
            for i in 0..s.loot.len()
                invariant
                    ids@ == loot_ids(s.loot@).take(i as int),
            {
                ids.push(s.loot[i].id);
                assert(ids@ =~= loot_ids(s.loot@).take(i + 1));
            }
            assert(ids@ =~= loot_ids(s.loot@));
        },
        None => {},
    }
    plan_markers(markers, &ids)
}

/// How the markers of grenades in flight change; without a snapshot there are
/// none.
pub fn sync_flight_grenades(markers: &Vec<u16>, latest: &Option<Snapshot>) -> (r: MarkerPlan)
    ensures
        plans_markers(
            r,
            markers@,
            match *latest {
                Some(s) => grenade_ids(s.grenades@),
                None => Seq::empty(),
            },
        ),
{
    let mut ids: Vec<u16> = Vec::new();
    match latest {
        Some(s) => {
            for i in 0..s.grenades.len()
                invariant
                    ids@ == grenade_ids(s.grenades@).take(i as int),
            {
                ids.push(s.grenades[i].id as u16);
                assert(ids@ =~= grenade_ids(s.grenades@).take(i + 1));
            }
            assert(ids@ =~= grenade_ids(s.grenades@));
        },
        None => {},
    }
    plan_markers(markers, &ids)
}

/// Once the plan is carried out there is a marker for an id exactly if a row
/// has it.
pub proof fn law_markers_follow_the_rows(markers: Seq<u16>, rows: Seq<u16>, id: u16)
    requires
        markers.len() <= usize::MAX,
        rows.len() <= usize::MAX,
    ensures
        ({
            let stay = followed(markers, rows, markers.len() as int);
            let new = appeared(markers, rows, rows.len() as int);
            let marked = (exists|k: int|
                0 <= k < stay.len() && markers[(#[trigger] stay[k]).entity as int] == id) || (exists|
                k: int,
            |
                0 <= k < new.len() && rows[(#[trigger] new[k]) as int] == id);
            marked <==> rows.contains(id)
        }),
{
    let stay = followed(markers, rows, markers.len() as int);
    let new = appeared(markers, rows, rows.len() as int);
    lemma_followed(markers, rows, markers.len() as int);
    lemma_appeared(markers, rows, rows.len() as int);
    lemma_last_place(rows, id, rows.len() as int);
    if rows.contains(id) {
        let r = last_place(rows, id, rows.len() as int)->0;
        assert(rows[r] == id);
        if markers.contains(id) {
            let i = choose|i: int| 0 <= i < markers.len() && markers[i] == id;
            let f = Follow { entity: i as usize, row: r as usize };
            assert(stay.contains(f));
            let k = choose|k: int| 0 <= k < stay.len() && stay[k] == f;
            assert(markers[stay[k].entity as int] == id);
        } else {
            assert(new.contains(r as usize));
            let k = choose|k: int| 0 <= k < new.len() && new[k] == r as usize;
            assert(rows[new[k] as int] == id);
        }
    }
    if exists|k: int| 0 <= k < stay.len() && markers[(#[trigger] stay[k]).entity as int] == id {
        let k = choose|k: int| 0 <= k < stay.len() && markers[(#[trigger] stay[k]).entity as int] == id;
        assert(last_place(rows, id, rows.len() as int) is Some);
        assert(rows[last_place(rows, id, rows.len() as int)->0] == id);
    }
    if exists|k: int| 0 <= k < new.len() && rows[(#[trigger] new[k]) as int] == id {
        let k = choose|k: int| 0 <= k < new.len() && rows[(#[trigger] new[k]) as int] == id;
        assert(new[k] < rows.len());
    }
}

proof fn lemma_followed(markers: Seq<u16>, rows: Seq<u16>, n: int)
    requires
        0 <= n <= markers.len() <= usize::MAX,
    ensures
        ({
            let stay = followed(markers, rows, n);
            &&& forall|i: int|
                0 <= i < n && last_place(rows, #[trigger] markers[i], rows.len() as int) is Some
                    ==> stay.contains(
                    Follow {
                        entity: i as usize,
                        row: last_place(rows, markers[i], rows.len() as int)->0 as usize,
                    },
                )
            &&& forall|k: int|
                0 <= k < stay.len() ==> (#[trigger] stay[k]).entity < n && last_place(
                    rows,
                    markers[stay[k].entity as int],
                    rows.len() as int,
                ) is Some
        }),
    decreases n,
{
    if n > 0 {
        lemma_followed(markers, rows, n - 1);
        let prev = followed(markers, rows, n - 1);
        let now = followed(markers, rows, n);
        assert forall|i: int|
            0 <= i < n && last_place(
                rows,
                #[trigger] markers[i],
                rows.len() as int,
            ) is Some implies now.contains(
            Follow {
                entity: i as usize,
                row: last_place(rows, markers[i], rows.len() as int)->0 as usize,
            },
        ) by {
            let f = Follow {
                entity: i as usize,
                row: last_place(rows, markers[i], rows.len() as int)->0 as usize,
            };
            if i < n - 1 {
                assert(prev.contains(f));
                let k = choose|k: int| 0 <= k < prev.len() && prev[k] == f;
                assert(now[k] == f);
            } else {
                assert(now[prev.len() as int] == f);
            }
        }
    }
}

proof fn lemma_appeared(markers: Seq<u16>, rows: Seq<u16>, n: int)
    requires
        0 <= n <= rows.len() <= usize::MAX,
    ensures
        ({
            let new = appeared(markers, rows, n);
            &&& forall|i: int|
                0 <= i < n && !markers.contains(#[trigger] rows[i]) && last_place(
                    rows,
                    rows[i],
                    rows.len() as int,
                ) == Some(i) ==> new.contains(i as usize)
            &&& forall|k: int| 0 <= k < new.len() ==> (#[trigger] new[k]) < n
        }),
    decreases n,
{
    if n > 0 {
        lemma_appeared(markers, rows, n - 1);
        let prev = appeared(markers, rows, n - 1);
        let now = appeared(markers, rows, n);
        assert forall|i: int|
            0 <= i < n && !markers.contains(#[trigger] rows[i]) && last_place(
                rows,
                rows[i],
                rows.len() as int,
            ) == Some(i) implies now.contains(i as usize) by {
            if i < n - 1 {
                assert(prev.contains(i as usize));
                let k = choose|k: int| 0 <= k < prev.len() && prev[k] == i as usize;
                assert(now[k] == i as usize);
            } else {
                assert(now[prev.len() as int] == i as usize);
            }
        }
    }
}

// ---- what the display promises ------------------------------------------------

/// A player is looked up by slot: the first row that has it, and none where no row
/// does.
pub proof fn law_players_are_looked_up_by_slot(snap: Snapshot, slot: u8)
    ensures
        forall|i: int|
            crate::game::is_own_row(snap, slot, i) ==> player_in(snap.players@, slot) == Some(
                #[trigger] snap.players@[i],
            ) && own_latest(Some(snap), slot) == Some(snap.players@[i]),
        (forall|i: int| 0 <= i < snap.players@.len() ==> (#[trigger] snap.players@[i]).slot != slot)
            ==> player_in(snap.players@, slot) is None && own_latest(Some(snap), slot) is None,
        own_latest(None, slot) is None,
{
    assert forall|i: int| crate::game::is_own_row(snap, slot, i) implies player_in(
        snap.players@,
        slot,
    ) == Some(#[trigger] snap.players@[i]) && own_latest(Some(snap), slot) == Some(
        snap.players@[i],
    ) by {
        crate::game::law_row_is_found(snap, slot, i);
    }
    if forall|i: int| 0 <= i < snap.players@.len() ==> (#[trigger] snap.players@[i]).slot != slot {
        crate::game::law_missing_row_is_not_found(snap, slot);
    }
}

/// Only our own shots mark the crosshair: any hit does, a kill as a kill; what
/// others hit, misses and explosions do not.
pub proof fn law_only_own_hits_mark(slot: u8, end: crate::wire::QPos, hit_kind: u8, from_me: bool)
    ensures
        own_hit(VisualEvent::Shot { slot, end, hit_kind, from_me }) <==> from_me && hit_kind != 0,
        own_kill(VisualEvent::Shot { slot, end, hit_kind, from_me }) <==> from_me && hit_kind != 0
            && hit_kind != 1,
        !own_hit(VisualEvent::Boom { pos: end }),
        !own_kill(VisualEvent::Boom { pos: end }),
{
}

/// The crosshair tells of the last own hit: a kill if that one killed. Without one
/// it stays as it was.
pub proof fn law_the_last_own_hit_decides(start: bool, events: Seq<VisualEvent>, n: int, i: int)
    requires
        0 <= i < n <= events.len(),
        forall|j: int| i < j < n ==> !own_hit(#[trigger] events[j]),
    ensures
        own_hit(events[i]) ==> kill_mark(start, events, n) == own_kill(events[i]),
        i == 0 && !own_hit(events[i]) ==> kill_mark(start, events, n) == start,
    decreases n,
{
    reveal_with_fuel(kill_mark, 2);
    if n - 1 > i {
        assert(!own_hit(events[n - 1]));
        law_the_last_own_hit_decides(start, events, n - 1, i);
    }
}

/// A tracer is gone before a spark, and a spark before an explosion.
pub proof fn law_effects_last_in_order()
    ensures
        (F32 { bits: 0 }).below(fx_life(FxKind::Tracer)),
        fx_life(FxKind::Tracer).below(fx_life(FxKind::Spark)),
        fx_life(FxKind::Spark).below(fx_life(FxKind::Boom)),
        fx_life(FxKind::Boom).below(F32 { bits: 0x3f80_0000 }),
{
}

/// The vitals read as the row says: the health's number, the magazine's before the
/// reserve's, and as many pips as grenades. Rows that read the same are the same.
pub proof fn law_vitals_read_as_they_are(labels: VitalsLabels, a: WirePlayer, b: WirePlayer)
    requires
        shows_vitals(labels, a),
    ensures
        crate::text::digits_value(labels.health@) == a.health,
        labels.grenades@.len() == a.grenades,
        forall|i: int| 0 <= i < labels.grenades@.len() ==> #[trigger] labels.grenades@[i] == '●',
        ({
            let mag = crate::text::decimal(a.ammo_mag as nat);
            let reserve = crate::text::decimal(a.ammo_reserve as nat);
            &&& mag.is_prefix_of(labels.ammo@)
            &&& reserve.is_suffix_of(labels.ammo@)
            &&& labels.ammo@.len() == mag.len() + 3 + reserve.len()
        }),
        shows_vitals(labels, b) ==> a.health == b.health && a.grenades == b.grenades,
{
    reveal_strlit(" / ");
    crate::text::law_decimal_reads_back(a.health as nat);
    crate::text::law_decimal_reads_back(b.health as nat);
    let mag = crate::text::decimal(a.ammo_mag as nat);
    let reserve = crate::text::decimal(a.ammo_reserve as nat);
    assert(mag =~= labels.ammo@.subrange(0, mag.len() as int));
    assert(reserve =~= labels.ammo@.subrange(
        labels.ammo@.len() - reserve.len(),
        labels.ammo@.len() as int,
    ));
    assert(pips(b.grenades as nat).len() == b.grenades);
}

/// The chip tells the whole state: refused, muted, sending, waiting for the
/// microphone, or ready, in this order; and each reads differently.
pub proof fn law_chip_tells_the_state(v: VoiceState, w: VoiceState)
    ensures
        chip_of(v) is Denied <==> v.mic_denied,
        chip_of(v) is Muted <==> !v.mic_denied && v.muted,
        chip_of(v) is Live <==> !v.mic_denied && !v.muted && v.self_live,
        chip_of(v) is Waiting <==> !v.mic_denied && !v.muted && !v.self_live && !v.mic_ready,
        chip_of(v) is On <==> !v.mic_denied && !v.muted && !v.self_live && v.mic_ready,
        chip_label(chip_of(v)) == chip_label(chip_of(w)) ==> chip_of(v) == chip_of(w),
        chip_label(MicChip::Muted) == first_label(HudPart::MicChip),
{
    reveal_strlit("MIC · DENIED");
    reveal_strlit("MIC · MUTED");
    reveal_strlit("MIC · LIVE");
    reveal_strlit("MIC · …");
    reveal_strlit("MIC · ON");
    assert("MIC · DENIED"@[6] == 'D');
    assert("MIC · MUTED"@[6] == 'M');
    assert("MIC · LIVE"@[6] == 'L');
    assert("MIC · …"@[6] == '…');
    assert("MIC · ON"@[6] == 'O');
}

/// Before the first update the panels read as an empty match: no kills, no
/// zombies, the first wave.
pub proof fn law_panels_start_at_nothing()
    ensures
        first_label(HudPart::Kills) == "KILLS "@ + crate::text::decimal(0),
        first_label(HudPart::Zombies) == "ZEDS "@ + crate::text::decimal(0),
        first_label(HudPart::Wave) == "WAVE "@ + crate::text::decimal(1),
        first_label(HudPart::Health) == crate::text::decimal(100),
        first_label(HudPart::Ammo) == crate::text::decimal(0) + " / "@ + crate::text::decimal(0),
        first_label(HudPart::Grenades) == pips(0),
{
    reveal_strlit("KILLS 0");
    reveal_strlit("KILLS ");
    reveal_strlit("ZEDS 0");
    reveal_strlit("ZEDS ");
    reveal_strlit("WAVE 1");
    reveal_strlit("WAVE ");
    reveal_strlit("100");
    reveal_strlit("0 / 0");
    reveal_strlit(" / ");
    reveal_strlit("");
    reveal_with_fuel(crate::text::decimal, 4);
    assert(first_label(HudPart::Kills) =~= "KILLS "@ + crate::text::decimal(0));
    assert(first_label(HudPart::Zombies) =~= "ZEDS "@ + crate::text::decimal(0));
    assert(first_label(HudPart::Wave) =~= "WAVE "@ + crate::text::decimal(1));
    assert(first_label(HudPart::Health) =~= crate::text::decimal(100));
    assert(first_label(HudPart::Ammo) =~= crate::text::decimal(0) + " / "@ + crate::text::decimal(
        0,
    ));
    assert(first_label(HudPart::Grenades) =~= pips(0));
}

/// A teammate is anyone on the roster but us.
pub proof fn law_teammates_are_the_others(roster: Seq<(u8, String, bool)>, my_slot: u8, i: int)
    requires
        0 <= i < roster.len(),
    ensures
        is_teammate(roster[i], my_slot) <==> roster[i].0 != my_slot && !roster[i].2,
        roster[i].0 != my_slot && !roster[i].2 ==> teammate_in(roster, my_slot, roster[i].0),
        !teammate_in(roster, my_slot, my_slot),
{
}

/// A row goes exactly if its slot is no teammate's any more; a new row is made
/// exactly for a teammate who has none.
pub proof fn law_rows_go_and_come_with_teammates(
    rows: Seq<u8>,
    roster: Seq<(u8, String, bool)>,
    my_slot: u8,
)
    requires
        rows.len() <= usize::MAX,
        roster.len() <= usize::MAX,
    ensures
        forall|i: int|
            0 <= i < rows.len() ==> (stale_rows(rows, roster, my_slot, rows.len() as int).contains(
                i as usize,
            ) <==> !someone_else_has(roster, my_slot, #[trigger] rows[i])),
        forall|k: int|
            0 <= k < roster.len() ==> (missing_rows(rows, roster, my_slot, roster.len() as int)
                .contains(k as usize) <==> (#[trigger] roster[k]).0 != my_slot && !roster[k].2
                && !rows.contains(roster[k].0)),
{
    lemma_stale(rows, roster, my_slot, rows.len() as int);
    lemma_missing_exactly(rows, roster, my_slot, roster.len() as int);
    assert forall|i: int| 0 <= i < rows.len() implies (teammate_in(roster, my_slot, rows[i])
        <==> someone_else_has(roster, my_slot, #[trigger] rows[i])) by {
        if someone_else_has(roster, my_slot, rows[i]) {
            let k = choose|k: int|
                0 <= k < roster.len() && (#[trigger] roster[k]).0 == rows[i] && roster[k].0
                    != my_slot && !roster[k].2;
            assert(is_teammate(roster[k], my_slot));
        }
    }
}

/// Somebody on the roster other than us has this slot.
pub open spec fn someone_else_has(roster: Seq<(u8, String, bool)>, my_slot: u8, slot: u8) -> bool {
    exists|k: int|
        0 <= k < roster.len() && (#[trigger] roster[k]).0 == slot && roster[k].0 != my_slot
            && !roster[k].2
}

proof fn lemma_stale(rows: Seq<u8>, roster: Seq<(u8, String, bool)>, my_slot: u8, n: int)
    requires
        0 <= n <= rows.len() <= usize::MAX,
    ensures
        forall|i: int|
            0 <= i < n ==> (stale_rows(rows, roster, my_slot, n).contains(i as usize)
                <==> !teammate_in(roster, my_slot, #[trigger] rows[i])),
        forall|k: int|
            0 <= k < stale_rows(rows, roster, my_slot, n).len() ==> (#[trigger] stale_rows(
                rows,
                roster,
                my_slot,
                n,
            )[k]) < n,
    decreases n,
{
    if n > 0 {
        lemma_stale(rows, roster, my_slot, n - 1);
        let prev = stale_rows(rows, roster, my_slot, n - 1);
        let now = stale_rows(rows, roster, my_slot, n);
        assert forall|i: int| 0 <= i < n implies (now.contains(i as usize) <==> !teammate_in(
            roster,
            my_slot,
            #[trigger] rows[i],
        )) by {
            lemma_contains_push(prev, now, (n - 1) as usize, i as usize);
        }
    }
}

proof fn lemma_missing_exactly(rows: Seq<u8>, roster: Seq<(u8, String, bool)>, my_slot: u8, n: int)
    requires
        0 <= n <= roster.len() <= usize::MAX,
    ensures
        forall|i: int|
            0 <= i < n ==> (missing_rows(rows, roster, my_slot, n).contains(i as usize)
                <==> is_teammate(#[trigger] roster[i], my_slot) && !rows.contains(roster[i].0)),
        forall|k: int|
            0 <= k < missing_rows(rows, roster, my_slot, n).len() ==> (#[trigger] missing_rows(
                rows,
                roster,
                my_slot,
                n,
            )[k]) < n,
    decreases n,
{
    if n > 0 {
        lemma_missing_exactly(rows, roster, my_slot, n - 1);
        let prev = missing_rows(rows, roster, my_slot, n - 1);
        let now = missing_rows(rows, roster, my_slot, n);
        assert forall|i: int| 0 <= i < n implies (now.contains(i as usize) <==> is_teammate(
            #[trigger] roster[i],
            my_slot,
        ) && !rows.contains(roster[i].0)) by {
            lemma_contains_push(prev, now, (n - 1) as usize, i as usize);
        }
    }
}

/// What a list contains that is another one, or the other with one more entry.
proof fn lemma_contains_push(prev: Seq<usize>, now: Seq<usize>, last: usize, x: usize)
    requires
        now == prev || now == prev.push(last),
        forall|k: int| 0 <= k < prev.len() ==> #[trigger] prev[k] < last,
    ensures
        now == prev ==> (now.contains(x) <==> prev.contains(x)),
        now == prev.push(last) ==> (now.contains(x) <==> prev.contains(x) || x == last),
        prev.contains(x) ==> x < last,
{
    if prev.contains(x) {
        let k = choose|k: int| 0 <= k < prev.len() && prev[k] == x;
        assert(now[k] == x);
    }
    if now == prev.push(last) {
        assert(now[prev.len() as int] == last);
        if now.contains(x) && x != last {
            let k = choose|k: int| 0 <= k < now.len() && now[k] == x;
            assert(prev[k] == x);
        }
    }
}

/// A teammate's row shows the name on the roster and what the snapshot says of
/// them: their health, and whether they live; who is not in it counts as dead.
pub proof fn law_teammate_rows_tell_the_truth(
    shown: TeammateRow,
    slot: u8,
    roster: Seq<(u8, String, bool)>,
    snap: Snapshot,
)
    requires
        shows_teammate(shown, slot, roster, snap),
    ensures
        forall|i: int|
            crate::game::is_own_row(snap, slot, i) ==> shown.health == (
            #[trigger] snap.players@[i]).health && shown.dead == !snap.players@[i].alive,
        (forall|i: int| 0 <= i < snap.players@.len() ==> (#[trigger] snap.players@[i]).slot != slot)
            ==> shown.dead && shown.health == 0,
        forall|k: int| first_on_roster(roster, slot, k) ==> shown.name@ == (#[trigger] roster[k]).1@,
{
    law_players_are_looked_up_by_slot(snap, slot);
    assert forall|k: int| first_on_roster(roster, slot, k) implies shown.name@ == (
    #[trigger] roster[k]).1@ by {
        lemma_roster_from(roster, slot, k, 0);
    }
}

/// Entry `k` is the first with this slot.
pub open spec fn first_on_roster(roster: Seq<(u8, String, bool)>, slot: u8, k: int) -> bool {
    &&& 0 <= k < roster.len()
    &&& roster[k].0 == slot
    &&& forall|j: int| 0 <= j < k ==> (#[trigger] roster[j]).0 != slot
}

proof fn lemma_roster_from(roster: Seq<(u8, String, bool)>, slot: u8, k: int, from: int)
    requires
        first_on_roster(roster, slot, k),
        0 <= from <= k,
    ensures
        roster_from(roster, slot, from) == Some(k),
    decreases k - from,
{
    if from < k {
        assert(roster[from].0 != slot);
        lemma_roster_from(roster, slot, k, from + 1);
    }
}

proof fn lemma_not_on_roster(roster: Seq<(u8, String, bool)>, slot: u8, from: int)
    requires
        0 <= from <= roster.len(),
        forall|j: int| 0 <= j < roster.len() ==> (#[trigger] roster[j]).0 != slot,
    ensures
        roster_from(roster, slot, from) is None,
    decreases roster.len() - from,
{
    if from < roster.len() {
        assert(roster[from].0 != slot);
        lemma_not_on_roster(roster, slot, from + 1);
    }
}

/// A statistics row is named by its player, else by the roster, else by the slot.
pub proof fn law_statistics_name_the_player(
    name: Seq<char>,
    slot: u8,
    roster: Seq<(u8, String, bool)>,
)
    ensures
        name.len() > 0 ==> stats_name(name, slot, roster) == name,
        name.len() == 0 ==> forall|k: int|
            first_on_roster(roster, slot, k) ==> stats_name(name, slot, roster) == (
            #[trigger] roster[k]).1@,
        name.len() == 0 && (forall|j: int|
            0 <= j < roster.len() ==> (#[trigger] roster[j]).0 != slot) ==> {
            let n = stats_name(name, slot, roster);
            &&& n[0] == 'P'
            &&& n.skip(1) == crate::text::decimal(slot as nat)
        },
{
    if name.len() == 0 {
        assert forall|k: int| first_on_roster(roster, slot, k) implies stats_name(
            name,
            slot,
            roster,
        ) == (#[trigger] roster[k]).1@ by {
            lemma_roster_from(roster, slot, k, 0);
        }
        if forall|j: int| 0 <= j < roster.len() ==> (#[trigger] roster[j]).0 != slot {
            lemma_not_on_roster(roster, slot, 0);
            reveal_strlit("P");
            assert(stats_name(name, slot, roster).skip(1) =~= crate::text::decimal(slot as nat));
        }
    }
}

/// A statistics row tells of its own player: it begins with the name and goes on
/// with the kills, the damage, the accuracy and the time alive, each behind its
/// own heading and in this order.
pub proof fn law_statistics_rows_read_in_order(
    name: Seq<char>,
    kills: u32,
    damage: u32,
    accuracy: Seq<char>,
    alive_s: Seq<char>,
)
    ensures
        ({
            let k = crate::text::decimal(kills as nat);
            let d = crate::text::decimal(damage as nat);
            stats_text(name, kills, damage, accuracy, alive_s) == name + ("  ·  K "@ + (k + (
            "  ·  DMG "@ + (d + ("  ·  ACC "@ + (accuracy + ("%  ·  "@ + (alive_s + "s"@))))))))
        }),
        crate::text::digits_value(crate::text::decimal(kills as nat)) == kills,
        crate::text::digits_value(crate::text::decimal(damage as nat)) == damage,
{
    let k = crate::text::decimal(kills as nat);
    let d = crate::text::decimal(damage as nat);
    crate::text::law_decimal_reads_back(kills as nat);
    crate::text::law_decimal_reads_back(damage as nat);
    assert(stats_text(name, kills, damage, accuracy, alive_s) =~= name + ("  ·  K "@ + (k + (
    "  ·  DMG "@ + (d + ("  ·  ACC "@ + (accuracy + ("%  ·  "@ + (alive_s + "s"@)))))))));
}

/// The header tells how long the match was, how many zombies fell, the greatest
/// horde and the wave reached, in this order.
pub proof fn law_statistics_header_reads_in_order(
    duration_s: Seq<char>,
    killed: u32,
    peak: u32,
    wave: nat,
)
    ensures
        header_text(duration_s, killed, peak, wave) == duration_s + ("s  ·  "@ + (
        crate::text::decimal(killed as nat) + (" zombies killed  ·  peak horde "@ + (
        crate::text::decimal(peak as nat) + ("  ·  wave "@ + crate::text::decimal(wave)))))),
{
    assert(header_text(duration_s, killed, peak, wave) =~= duration_s + ("s  ·  "@ + (
    crate::text::decimal(killed as nat) + (" zombies killed  ·  peak horde "@ + (
    crate::text::decimal(peak as nat) + ("  ·  wave "@ + crate::text::decimal(wave)))))));
}

/// A statistics row belongs to the player at its place and is written where that
/// player's row already stands, the last one of the slot; a row of nobody in the
/// statistics goes.
pub proof fn law_statistics_rows_keep_their_players(
    row: StatsRow,
    stats: MatchStats,
    measures: Seq<Measures>,
    roster: Seq<(u8, String, bool)>,
    rows: Seq<u8>,
    i: int,
)
    requires
        0 <= i < stats.players@.len(),
        rows.len() <= usize::MAX,
        is_stats_row(row, stats, measures, roster, rows, i),
    ensures
        ({
            let p = stats.players@[i];
            &&& row.slot == p.slot
            &&& row.text@ == stats_text(
                stats_name(p.name@, p.slot, roster),
                p.kills,
                p.damage_dealt,
                measures[i].accuracy@,
                measures[i].alive_s@,
            )
            &&& row.row is Some <==> rows.contains(p.slot)
            &&& row.row is Some ==> row.row->0 < rows.len() && rows[row.row->0 as int] == p.slot
                && forall|k: int| row.row->0 < k < rows.len() ==> #[trigger] rows[k] != p.slot
        }),
        forall|r: int|
            0 <= r < rows.len() ==> (foreign_rows(rows, stats, rows.len() as int).contains(
                r as usize,
            ) <==> !(exists|j: int|
                0 <= j < stats.players@.len() && (#[trigger] stats.players@[j]).slot
                    == #[trigger] rows[r])),
{
    lemma_last_row(rows, stats.players@[i].slot, rows.len() as int);
    lemma_foreign(rows, stats, rows.len() as int);
}

proof fn lemma_last_row(rows: Seq<u8>, slot: u8, n: int)
    requires
        0 <= n <= rows.len(),
    ensures
        match last_row(rows, slot, n) {
            Some(k) => 0 <= k < n && rows[k] == slot && forall|j: int|
                k < j < n ==> #[trigger] rows[j] != slot,
            None => forall|j: int| 0 <= j < n ==> #[trigger] rows[j] != slot,
        },
    decreases n,
{
    if n > 0 {
        lemma_last_row(rows, slot, n - 1);
    }
}

proof fn lemma_foreign(rows: Seq<u8>, stats: MatchStats, n: int)
    requires
        0 <= n <= rows.len() <= usize::MAX,
    ensures
        forall|r: int|
            0 <= r < n ==> (foreign_rows(rows, stats, n).contains(r as usize) <==> !in_stats(
                stats,
                #[trigger] rows[r],
            )),
        forall|k: int|
            0 <= k < foreign_rows(rows, stats, n).len() ==> (#[trigger] foreign_rows(
                rows,
                stats,
                n,
            )[k]) < n,
    decreases n,
{
    if n > 0 {
        lemma_foreign(rows, stats, n - 1);
        let prev = foreign_rows(rows, stats, n - 1);
        let now = foreign_rows(rows, stats, n);
        assert forall|r: int| 0 <= r < n implies (now.contains(r as usize) <==> !in_stats(
            stats,
            #[trigger] rows[r],
        )) by {
            lemma_contains_push(prev, now, (n - 1) as usize, r as usize);
        }
    }
}

/// Markers stand for the rows with their id: a marker that stays follows the last
/// such row, one whose id is gone is removed, and a row without a marker gets
/// one, once per id.
pub proof fn law_markers_stand_for_their_rows(plan: MarkerPlan, markers: Seq<u16>, rows: Seq<u16>)
    requires
        markers.len() <= usize::MAX,
        rows.len() <= usize::MAX,
        plans_markers(plan, markers, rows),
    ensures
        forall|k: int|
            0 <= k < plan.follow@.len() ==> follows_last(#[trigger] plan.follow@[k], markers, rows),
        forall|e: int|
            0 <= e < markers.len() ==> (plan.gone@.contains(e as usize) <==> !rows.contains(
                #[trigger] markers[e],
            )),
        forall|r: int|
            0 <= r < rows.len() ==> (plan.spawns@.contains(r as usize) <==> !markers.contains(
                #[trigger] rows[r],
            ) && forall|j: int| r < j < rows.len() ==> #[trigger] rows[j] != rows[r]),
{
    lemma_follow_rows(markers, rows, markers.len() as int);
    lemma_vanished(markers, rows, markers.len() as int);
    lemma_spawned(markers, rows, rows.len() as int);
}

/// The marker follows the last row with its id.
pub open spec fn follows_last(f: Follow, markers: Seq<u16>, rows: Seq<u16>) -> bool {
    &&& f.entity < markers.len()
    &&& f.row < rows.len()
    &&& rows[f.row as int] == markers[f.entity as int]
    &&& forall|j: int| f.row < j < rows.len() ==> #[trigger] rows[j] != markers[f.entity as int]
}

proof fn lemma_follow_rows(markers: Seq<u16>, rows: Seq<u16>, n: int)
    requires
        0 <= n <= markers.len() <= usize::MAX,
        rows.len() <= usize::MAX,
    ensures
        forall|k: int|
            0 <= k < followed(markers, rows, n).len() ==> follows_last(
                #[trigger] followed(markers, rows, n)[k],
                markers,
                rows,
            ),
    decreases n,
{
    if n > 0 {
        lemma_follow_rows(markers, rows, n - 1);
        lemma_last_place(rows, markers[n - 1], rows.len() as int);
        let prev = followed(markers, rows, n - 1);
        let now = followed(markers, rows, n);
        assert forall|k: int| 0 <= k < now.len() implies follows_last(
            #[trigger] now[k],
            markers,
            rows,
        ) by {
            if k < prev.len() {
                assert(now[k] == prev[k]);
            }
        }
    }
}

proof fn lemma_vanished(markers: Seq<u16>, rows: Seq<u16>, n: int)
    requires
        0 <= n <= markers.len() <= usize::MAX,
    ensures
        forall|e: int|
            0 <= e < n ==> (vanished(markers, rows, n).contains(e as usize) <==> !rows.contains(
                #[trigger] markers[e],
            )),
        forall|k: int|
            0 <= k < vanished(markers, rows, n).len() ==> (#[trigger] vanished(
                markers,
                rows,
                n,
            )[k]) < n,
    decreases n,
{
    if n > 0 {
        lemma_vanished(markers, rows, n - 1);
        lemma_last_place(rows, markers[n - 1], rows.len() as int);
        let prev = vanished(markers, rows, n - 1);
        let now = vanished(markers, rows, n);
        assert forall|e: int| 0 <= e < n implies (now.contains(e as usize) <==> !rows.contains(
            #[trigger] markers[e],
        )) by {
            lemma_contains_push(prev, now, (n - 1) as usize, e as usize);
        }
    }
}

proof fn lemma_spawned(markers: Seq<u16>, rows: Seq<u16>, n: int)
    requires
        0 <= n <= rows.len() <= usize::MAX,
    ensures
        forall|r: int|
            0 <= r < n ==> (appeared(markers, rows, n).contains(r as usize) <==> !markers.contains(
                #[trigger] rows[r],
            ) && forall|j: int| r < j < rows.len() ==> #[trigger] rows[j] != rows[r]),
        forall|k: int|
            0 <= k < appeared(markers, rows, n).len() ==> (#[trigger] appeared(
                markers,
                rows,
                n,
            )[k]) < n,
    decreases n,
{
    if n > 0 {
        lemma_spawned(markers, rows, n - 1);
        lemma_last_place(rows, rows[n - 1], rows.len() as int);
        let prev = appeared(markers, rows, n - 1);
        let now = appeared(markers, rows, n);
        assert forall|r: int| 0 <= r < n implies (now.contains(r as usize) <==> !markers.contains(
            #[trigger] rows[r],
        ) && forall|j: int| r < j < rows.len() ==> #[trigger] rows[j] != rows[r]) by {
            lemma_contains_push(prev, now, (n - 1) as usize, r as usize);
        }
    }
}

/// Loot and grenades are told apart by the ids the server gave them.
pub proof fn law_loot_and_grenades_keep_their_ids(loot: Seq<WireLoot>, grenades: Seq<WireGrenade>)
    ensures
        loot_ids(loot).len() == loot.len(),
        forall|i: int| 0 <= i < loot.len() ==> #[trigger] loot_ids(loot)[i] == loot[i].id,
        grenade_ids(grenades).len() == grenades.len(),
        forall|i: int|
            0 <= i < grenades.len() ==> #[trigger] grenade_ids(grenades)[i] == grenades[i].id,
{
}

/// The crosshair flashes exactly if one of the events is an own hit, however many
/// others there are.
pub proof fn law_own_hits_flash(events: Seq<VisualEvent>, more: VisualEvent, i: int)
    ensures
        any_own_hit(events.push(more)) <==> any_own_hit(events) || own_hit(more),
        !any_own_hit(Seq::empty()),
        0 <= i < events.len() && own_hit(events[i]) ==> any_own_hit(events),
{
    let all = events.push(more);
    if any_own_hit(events) {
        let k = choose|k: int| 0 <= k < events.len() && own_hit(#[trigger] events[k]);
        assert(own_hit(all[k]));
    }
    if own_hit(more) {
        assert(own_hit(all[events.len() as int]));
    }
    if any_own_hit(all) && !own_hit(more) {
        let k = choose|k: int| 0 <= k < all.len() && own_hit(#[trigger] all[k]);
        assert(own_hit(events[k]));
    }
}

/// Who is not on the roster has no name.
pub proof fn law_strangers_have_no_name(
    shown: TeammateRow,
    slot: u8,
    roster: Seq<(u8, String, bool)>,
    snap: Snapshot,
)
    requires
        shows_teammate(shown, slot, roster, snap),
        forall|k: int| 0 <= k < roster.len() ==> (#[trigger] roster[k]).0 != slot,
    ensures
        shown.name@ == "?"@,
{
    lemma_not_on_roster(roster, slot, 0);
}

} // verus!
