//! Sound effects: which of the queued ones get a voice, which clip they play,
//! and the noise source and layout behind the synthesised clips.

use std::collections::VecDeque;
use vstd::prelude::*;
use crate::scalar::F32;
use crate::seams::Sfx;

verus! {

/// Sample rate of the synthesised clips.
pub const SAMPLE_RATE: u32 = 44_100;

/// Most voices at once.
pub const MAX_CONCURRENT: usize = 8;

/// Most growls at once.
pub const MAX_GROWLS: usize = 6;

/// How much an effect matters: lower is dropped first.
pub open spec fn priority_of(sfx: Sfx) -> u8 {
    match sfx {
        Sfx::Shoot { from_me } => if from_me {
            4
        } else {
            0
        },
        Sfx::Growl { volume } => 1,
        Sfx::Click => 2,
        Sfx::DryClick => 2,
        Sfx::ReloadClack => 3,
        Sfx::MeleeSwing => 3,
        Sfx::MeleeHit => 4,
        Sfx::HitConfirm => 5,
        Sfx::Pickup => 6,
        Sfx::Hurt => 7,
        Sfx::KillConfirm { headshot } => 8,
        Sfx::Explosion { dist } => 9,
        Sfx::TeamWipe => 10,
    }
}

pub fn sfx_priority(sfx: &Sfx) -> (r: u8)
    ensures
        r == priority_of(*sfx),
{
    match *sfx {
        Sfx::Shoot { from_me } => {
            if from_me {
                4
            } else {
                0
            }
        },
        Sfx::Growl { .. } => 1,
        Sfx::Click => 2,
        Sfx::DryClick => 2,
        Sfx::ReloadClack => 3,
        Sfx::MeleeSwing => 3,
        Sfx::MeleeHit => 4,
        Sfx::HitConfirm => 5,
        Sfx::Pickup => 6,
        Sfx::Hurt => 7,
        Sfx::KillConfirm { .. } => 8,
        Sfx::Explosion { .. } => 9,
        Sfx::TeamWipe => 10,
    }
}

/// Only other players' shots have the lowest priority, and nothing outranks the
/// end of the match.
pub proof fn law_remote_shots_matter_least(sfx: Sfx)
    ensures
        priority_of(sfx) == 0 <==> sfx == (Sfx::Shoot { from_me: false }),
        priority_of(sfx) <= priority_of(Sfx::TeamWipe),
{
}

/// The synthesised clips.
#[derive(Clone, Copy, Debug, PartialEq, Eq, Structural)]
pub enum Clip {
    Shoot,
    HitConfirm,
    Kill,
    KillHeadshot,
    Explosion,
    Hurt,
    Pickup,
    TeamWipe,
    Click,
    DryClick,
    MeleeSwing,
    MeleeHit,
    ReloadClack,
    Growl,
}

/// How loud a voice is.
#[derive(Clone, Copy, Debug, PartialEq, Eq, Structural)]
pub enum Gain {
    /// In percent.
    Percent(u8),
    /// Fading with this distance in metres.
    ByDistance(F32),
    /// This volume, kept within a growl's bounds.
    Bounded(F32),
}

/// One effect being played.
#[derive(Clone, Copy, Debug, PartialEq, Eq, Structural)]
pub struct Voice {
    pub clip: Clip,
    pub gain: Gain,
    /// Counts against the growls' own limit.
    pub growl: bool,
}

/// The voice an effect gets.
pub open spec fn voice_for(sfx: Sfx) -> Voice {
    let (clip, gain) = match sfx {
        Sfx::Shoot { from_me } => (
            Clip::Shoot,
            Gain::Percent(
                if from_me {
                    100
                } else {
                    40
                },
            ),
        ),
        Sfx::HitConfirm => (Clip::HitConfirm, Gain::Percent(100)),
        Sfx::KillConfirm { headshot } => (
            if headshot {
                Clip::KillHeadshot
            } else {
                Clip::Kill
            },
            Gain::Percent(100),
        ),
        Sfx::Explosion { dist } => (Clip::Explosion, Gain::ByDistance(dist)),
        Sfx::Hurt => (Clip::Hurt, Gain::Percent(100)),
        Sfx::Pickup => (Clip::Pickup, Gain::Percent(100)),
        Sfx::TeamWipe => (Clip::TeamWipe, Gain::Percent(100)),
        Sfx::Click => (Clip::Click, Gain::Percent(70)),
        Sfx::DryClick => (Clip::DryClick, Gain::Percent(85)),
        Sfx::MeleeSwing => (Clip::MeleeSwing, Gain::Percent(90)),
        Sfx::MeleeHit => (Clip::MeleeHit, Gain::Percent(100)),
        Sfx::ReloadClack => (Clip::ReloadClack, Gain::Percent(85)),
        Sfx::Growl { volume } => (Clip::Growl, Gain::Bounded(volume)),
    };
    Voice { clip, gain, growl: sfx is Growl }
}

fn make_voice(sfx: &Sfx) -> (r: Voice)
    ensures
        r == voice_for(*sfx),
{
    let (clip, gain): (Clip, Gain) = match *sfx {
        Sfx::Shoot { from_me } => (Clip::Shoot, Gain::Percent(if from_me { 100 } else { 40 })),
        Sfx::HitConfirm => (Clip::HitConfirm, Gain::Percent(100)),
        Sfx::KillConfirm { headshot } => (
            if headshot { Clip::KillHeadshot } else { Clip::Kill },
            Gain::Percent(100),
        ),
        Sfx::Explosion { dist } => (Clip::Explosion, Gain::ByDistance(dist)),
        Sfx::Hurt => (Clip::Hurt, Gain::Percent(100)),
        Sfx::Pickup => (Clip::Pickup, Gain::Percent(100)),
        Sfx::TeamWipe => (Clip::TeamWipe, Gain::Percent(100)),
        Sfx::Click => (Clip::Click, Gain::Percent(70)),
        Sfx::DryClick => (Clip::DryClick, Gain::Percent(85)),
        Sfx::MeleeSwing => (Clip::MeleeSwing, Gain::Percent(90)),
        Sfx::MeleeHit => (Clip::MeleeHit, Gain::Percent(100)),
        Sfx::ReloadClack => (Clip::ReloadClack, Gain::Percent(85)),
        Sfx::Growl { volume } => (Clip::Growl, Gain::Bounded(volume)),
    };
    Voice { clip, gain, growl: matches!(*sfx, Sfx::Growl { .. }) }
}

/// An effect gets a voice if one is free, a growl only below the growls' limit,
/// and another player's shot only if that still leaves a voice free.
pub open spec fn admitted(sfx: Sfx, active: nat, growls: nat) -> bool {
    &&& active < MAX_CONCURRENT
    &&& sfx is Growl ==> growls < MAX_GROWLS
    &&& priority_of(sfx) == 0 ==> active + 1 < MAX_CONCURRENT
}

/// The voices the first `n` queued effects get, given those already playing.
pub open spec fn voices(q: Seq<Sfx>, active: nat, growls: nat, n: int) -> Seq<Voice>
    decreases n,
{
    if n <= 0 {
        Seq::empty()
    } else {
        let before = voices(q, active, growls, n - 1);
        if admitted(
            q[n - 1],
            active + before.len(),
            growls + growl_count(before, before.len() as int),
        ) {
            before.push(voice_for(q[n - 1]))
        } else {
            before
        }
    }
}

/// How many of the first `n` voices growl.
pub open spec fn growl_count(v: Seq<Voice>, n: int) -> nat
    decreases n,
{
    if n <= 0 {
        0
    } else {
        growl_count(v, n - 1) + (if v[n - 1].growl {
            1nat
        } else {
            0nat
        })
    }
}

proof fn lemma_growl_count_push(v: Seq<Voice>, x: Voice, n: int)
    requires
        0 <= n <= v.len(),
    ensures
        growl_count(v.push(x), n) == growl_count(v, n),
    decreases n,
{
    if n > 0 {
        lemma_growl_count_push(v, x, n - 1);
        assert(v.push(x)[n - 1] == v[n - 1]);
    }
}

/// Takes every queued effect and says which get a voice, in order. Those that
/// do not are dropped: a full pool never builds up a backlog.
pub fn drain_sfx_queue(queue: &mut VecDeque<Sfx>, active: usize, growls: usize) -> (r: Vec<Voice>)
    requires
        active + old(queue)@.len() <= usize::MAX,
        growls + old(queue)@.len() <= usize::MAX,
    ensures
        final(queue)@ == Seq::<Sfx>::empty(),
        r@ == voices(old(queue)@, active as nat, growls as nat, old(queue)@.len() as int),
{
    let ghost q = queue@;
    let mut out: Vec<Voice> = Vec::new();
    let mut now: usize = active;
    let mut now_growls: usize = growls;
    let ghost mut n: int = 0;
    assert(q.skip(0) =~= q);
    while queue.len() > 0
        invariant
            0 <= n <= q.len(),
            queue@ == q.skip(n),
            active + q.len() <= usize::MAX,
            growls + q.len() <= usize::MAX,
            out@ == voices(q, active as nat, growls as nat, n),
            out@.len() <= n,
            now == active + out@.len(),
            now_growls == growls + growl_count(out@, out@.len() as int),
            growl_count(out@, out@.len() as int) <= n,
        decreases queue@.len(),
    {
        match queue.pop_front() {
            Some(sfx) => {
                assert(sfx == q[n]);
                let is_growl: bool = matches!(sfx, Sfx::Growl { .. });
                let plays: bool = now < MAX_CONCURRENT && (!is_growl || now_growls < MAX_GROWLS)
                    && (sfx_priority(&sfx) != 0 || now + 1 < MAX_CONCURRENT);
                if plays {
                    let voice = make_voice(&sfx);
                    proof {
                        lemma_growl_count_push(out@, voice, out@.len() as int);
                    }
                    out.push(voice);
                    if is_growl {
                        now_growls += 1;
                    }
                    now += 1;
                }
                proof {
                    n = n + 1;
                    assert(queue@ =~= q.skip(n));
                }
            },
            None => {},
        }
    }
    out
}

/// The pool never overflows: with no more than the limits playing before, no
/// more than the limits play after.
pub proof fn law_voice_pool_is_bounded(q: Seq<Sfx>, active: nat, growls: nat, n: int)
    requires
        0 <= n <= q.len(),
        active <= MAX_CONCURRENT,
        growls <= MAX_GROWLS,
    ensures
        ({
            let v = voices(q, active, growls, n);
            &&& active + v.len() <= MAX_CONCURRENT
            &&& growls + growl_count(v, v.len() as int) <= MAX_GROWLS
        }),
    decreases n,
{
    if n > 0 {
        law_voice_pool_is_bounded(q, active, growls, n - 1);
        let before = voices(q, active, growls, n - 1);
        lemma_growl_count_push(before, voice_for(q[n - 1]), before.len() as int);
    }
}

/// While a voice is free, everything but other players' shots and surplus
/// growls gets one.
pub proof fn law_combat_feedback_is_never_dropped_early(sfx: Sfx, active: nat, growls: nat)
    requires
        active < MAX_CONCURRENT,
        !(sfx is Growl),
        sfx != (Sfx::Shoot { from_me: false }),
    ensures
        admitted(sfx, active, growls),
{
}

// ---- synthesis ------------------------------------------------------------------

/// One step of the noise generator.
pub open spec fn xorshift(x: u32) -> u32 {
    let a = x ^ (x << 13u32);
    let b = a ^ (a >> 17u32);
    b ^ (b << 5u32)
}

/// Deterministic white noise.
#[derive(Clone, Copy, Debug, PartialEq, Eq, Structural)]
pub struct XorShift32 {
    pub state: u32,
}

impl XorShift32 {
    /// A generator from a seed; zero, which would give silence, is replaced.
    pub fn new(seed: u32) -> (r: Self)
        ensures
            r.state == (if seed == 0 {
                0xA5A5_5A5Au32
            } else {
                seed
            }),
            r.state != 0,
    {
        XorShift32 { state: if seed == 0 { 0xA5A5_5A5A } else { seed } }
    }

    pub fn next_u32(&mut self) -> (r: u32)
        ensures
            r == xorshift(old(self).state),
            final(self).state == r,
            old(self).state != 0 ==> r != 0,
    {
        let mut x: u32 = self.state;
        proof {
            law_noise_never_dies(self.state);
        }
        x = x ^ (x << 13u32);
        x = x ^ (x >> 17u32);
        x = x ^ (x << 5u32);
        self.state = x;
        x
    }
}

/// The generator never reaches zero, where it would stay.
pub proof fn law_noise_never_dies(x: u32)
    ensures
        x != 0 ==> xorshift(x) != 0,
{
    assert(x != 0 ==> {
        let a = x ^ (x << 13u32);
        let b = a ^ (a >> 17u32);
        (b ^ (b << 5u32)) != 0
    }) by (bit_vector);
}

/// No two states lead to the same one: the generator never runs into a shorter
/// cycle.
pub proof fn law_noise_is_reversible(x: u32, y: u32)
    requires
        xorshift(x) == xorshift(y),
    ensures
        x == y,
{
    assert(({
        let a = x ^ (x << 13u32);
        let b = a ^ (a >> 17u32);
        b ^ (b << 5u32)
    }) == ({
        let a = y ^ (y << 13u32);
        let b = a ^ (a >> 17u32);
        b ^ (b << 5u32)
    }) ==> x == y) by (bit_vector);
}

/// Samples in so many milliseconds, rounded to the nearest, halves up.
pub open spec fn sample_count(ms: u32) -> int {
    (SAMPLE_RATE * ms + 500) / 1000
}

pub fn samples_for_ms(ms: u32) -> (r: u64)
    ensures
        r == sample_count(ms),
{
    assert(SAMPLE_RATE * ms <= 44_100 * 0xffff_ffff) by (nonlinear_arith)
        requires
            SAMPLE_RATE == 44_100,
            ms <= 0xffff_ffff,
    ;
    (SAMPLE_RATE as u64 * ms as u64 + 500) / 1000
}

/// A phrase of equal notes with equal rests between them, in samples.
#[derive(Clone, Copy, Debug, PartialEq, Eq, Structural)]
pub struct Phrase {
    pub notes: u64,
    pub note: u64,
    pub gap: u64,
}

impl Phrase {
    /// Where note `k` starts.
    pub open spec fn start_of(self, k: int) -> int {
        k * (self.note + self.gap)
    }

    /// Length of the whole phrase: no rest follows the last note.
    pub open spec fn total(self) -> int {
        self.notes * self.note + (self.notes - 1) * self.gap
    }

    /// Short enough for a machine integer.
    pub open spec fn fits(self) -> bool {
        self.notes >= 1 && self.notes <= 1000 && self.note <= 0xffff_ffff && self.gap <= 0xffff_ffff
    }

    pub fn start(&self, k: u64) -> (r: u64)
        requires
            self.fits(),
            k < self.notes,
        ensures
            r == self.start_of(k as int),
    {
        assert(k * (self.note + self.gap) <= 1000 * (0xffff_ffff + 0xffff_ffff)) by (nonlinear_arith)
            requires
                k < 1000,
                self.note <= 0xffff_ffff,
                self.gap <= 0xffff_ffff,
        ;
        k * (self.note + self.gap)
    }

    pub fn len(&self) -> (r: u64)
        requires
            self.fits(),
        ensures
            r == self.total(),
    {
        assert(self.notes * self.note <= 1000 * 0xffff_ffff) by (nonlinear_arith)
            requires
                self.notes <= 1000,
                self.note <= 0xffff_ffff,
        ;
        assert((self.notes - 1) * self.gap <= 1000 * 0xffff_ffff) by (nonlinear_arith)
            requires
                1 <= self.notes <= 1000,
                self.gap <= 0xffff_ffff,
        ;
        assert((self.notes - 1) * self.gap >= 0) by (nonlinear_arith)
            requires
                1 <= self.notes,
        ;
        self.notes * self.note + (self.notes - 1) * self.gap
    }
}

/// Notes do not overlap, and the last one ends with the phrase.
pub proof fn law_notes_fill_the_phrase(p: Phrase, k: int)
    requires
        p.fits(),
        0 <= k < p.notes,
    ensures
        p.start_of(k) >= 0,
        p.start_of(k) + p.note <= p.total(),
        k + 1 < p.notes ==> p.start_of(k) + p.note + p.gap == p.start_of(k + 1),
        k + 1 == p.notes ==> p.start_of(k) + p.note == p.total(),
{
    assert(k * (p.note + p.gap) + (p.note + p.gap) == (k + 1) * (p.note + p.gap))
        by (nonlinear_arith);
    assert(p.notes * p.note + (p.notes - 1) * p.gap == (p.notes - 1) * (p.note + p.gap) + p.note)
        by (nonlinear_arith);
    assert(k * (p.note + p.gap) >= 0) by (nonlinear_arith)
        requires
            k >= 0,
            p.note >= 0,
            p.gap >= 0,
    ;
    assert(k * (p.note + p.gap) <= (p.notes - 1) * (p.note + p.gap)) by (nonlinear_arith)
        requires
            0 <= k <= p.notes - 1,
            p.note >= 0,
            p.gap >= 0,
    ;
}

/// The kill confirmation: two notes.
pub fn kill_phrase() -> (r: Phrase)
    ensures
        r == (Phrase { notes: 2, note: sample_count(70) as u64, gap: sample_count(20) as u64 }),
        r.fits(),
{
    Phrase { notes: 2, note: samples_for_ms(70), gap: samples_for_ms(20) }
}

/// The team wipe: three notes.
pub fn team_wipe_phrase() -> (r: Phrase)
    ensures
        r == (Phrase { notes: 3, note: sample_count(160) as u64, gap: sample_count(40) as u64 }),
        r.fits(),
{
    Phrase { notes: 3, note: samples_for_ms(160), gap: samples_for_ms(40) }
}

/// How far a clip has been played.
#[derive(Clone, Copy, Debug, PartialEq, Eq, Structural)]
pub struct ClipCursor {
    pub len: usize,
    pub index: usize,
}

impl ClipCursor {
    pub fn new(len: usize) -> (r: Self)
        ensures
            r == (ClipCursor { len, index: 0 }),
    {
        ClipCursor { len, index: 0 }
    }

    /// The place of the next sample; nothing once the clip is over.
    pub fn next_index(&mut self) -> (r: Option<usize>)
        ensures
            final(self).len == old(self).len,
            if old(self).index < old(self).len {
                r == Some(old(self).index) && final(self).index == old(self).index + 1
            } else {
                r is None && final(self).index == old(self).index
            },
    {
        if self.index >= self.len {
            return None;
        }
        let at: usize = self.index;
        self.index += 1;
        Some(at)
    }

    /// Samples left.
    pub fn remaining(&self) -> (r: usize)
        ensures
            r == (if self.index < self.len {
                self.len - self.index
            } else {
                0
            }),
    {
        if self.index < self.len {
            self.len - self.index
        } else {
            0
        }
    }
}

/// Every effect plays the clip made for it; a kill to the head has its own.
pub proof fn law_effects_play_their_own_clip(from_me: bool, headshot: bool, dist: F32, volume: F32)
    ensures
        voice_for(Sfx::Shoot { from_me }).clip is Shoot,
        voice_for(Sfx::HitConfirm).clip is HitConfirm,
        voice_for(Sfx::Explosion { dist }).clip is Explosion,
        voice_for(Sfx::Hurt).clip is Hurt,
        voice_for(Sfx::Pickup).clip is Pickup,
        voice_for(Sfx::TeamWipe).clip is TeamWipe,
        voice_for(Sfx::Click).clip is Click,
        voice_for(Sfx::DryClick).clip is DryClick,
        voice_for(Sfx::MeleeSwing).clip is MeleeSwing,
        voice_for(Sfx::MeleeHit).clip is MeleeHit,
        voice_for(Sfx::ReloadClack).clip is ReloadClack,
        voice_for(Sfx::Growl { volume }).clip is Growl,
        headshot ==> voice_for(Sfx::KillConfirm { headshot }).clip is KillHeadshot,
        !headshot ==> voice_for(Sfx::KillConfirm { headshot }).clip is Kill,
{
}

/// Explosions fade with their own distance, growls with their own volume, other
/// players' shots are quieter than ours, and all else has a fixed loudness, never
/// above full. Growls alone count as growls.
pub proof fn law_effects_are_as_loud_as_they_should_be(sfx: Sfx)
    ensures
        sfx matches Sfx::Explosion { dist } ==> voice_for(sfx).gain == Gain::ByDistance(dist),
        sfx matches Sfx::Growl { volume } ==> voice_for(sfx).gain == Gain::Bounded(volume),
        !(sfx is Explosion) && !(sfx is Growl) ==> voice_for(sfx).gain is Percent && 0
            < voice_for(sfx).gain->Percent_0 <= 100,
        voice_for(Sfx::Shoot { from_me: false }).gain->Percent_0 < voice_for(
            Sfx::Shoot { from_me: true },
        ).gain->Percent_0,
        sfx matches Sfx::Shoot { from_me } ==> from_me ==> voice_for(sfx).gain->Percent_0 == 100,
        sfx is HitConfirm || sfx is KillConfirm || sfx is Hurt || sfx is Pickup || sfx is TeamWipe
            || sfx is MeleeHit ==> voice_for(sfx).gain->Percent_0 == 100,
        sfx is Click || sfx is DryClick || sfx is MeleeSwing || sfx is ReloadClack ==> voice_for(
            sfx,
        ).gain->Percent_0 < 100,
        voice_for(sfx).growl <==> sfx is Growl,
{
}

/// What matters more to the player outranks what matters less: from the shots of
/// others over growls, clicks, handling and our own shots to hits, pickups, pain,
/// kills, explosions and the end of the team.
pub proof fn law_priorities_rise_with_what_matters(headshot: bool, dist: F32, volume: F32)
    ensures
        priority_of(Sfx::Shoot { from_me: false }) < priority_of(Sfx::Growl { volume }),
        priority_of(Sfx::Growl { volume }) < priority_of(Sfx::Click),
        priority_of(Sfx::Click) == priority_of(Sfx::DryClick),
        priority_of(Sfx::DryClick) < priority_of(Sfx::ReloadClack),
        priority_of(Sfx::ReloadClack) == priority_of(Sfx::MeleeSwing),
        priority_of(Sfx::MeleeSwing) < priority_of(Sfx::Shoot { from_me: true }),
        priority_of(Sfx::Shoot { from_me: true }) == priority_of(Sfx::MeleeHit),
        priority_of(Sfx::MeleeHit) < priority_of(Sfx::HitConfirm),
        priority_of(Sfx::HitConfirm) < priority_of(Sfx::Pickup),
        priority_of(Sfx::Pickup) < priority_of(Sfx::Hurt),
        priority_of(Sfx::Hurt) < priority_of(Sfx::KillConfirm { headshot }),
        priority_of(Sfx::KillConfirm { headshot }) < priority_of(Sfx::Explosion { dist }),
        priority_of(Sfx::Explosion { dist }) < priority_of(Sfx::TeamWipe),
{
}

/// An effect plays exactly if a voice is free for it: the growls share fewer, and
/// another player's shot leaves the last one to others.
pub proof fn law_effects_play_while_voices_are_free(sfx: Sfx, active: nat, growls: nat)
    ensures
        active >= MAX_CONCURRENT ==> !admitted(sfx, active, growls),
        sfx is Growl ==> (admitted(sfx, active, growls) <==> active < MAX_CONCURRENT && growls
            < MAX_GROWLS),
        sfx == (Sfx::Shoot { from_me: false }) ==> (admitted(sfx, active, growls) <==> active + 1
            < MAX_CONCURRENT),
        !(sfx is Growl) && sfx != (Sfx::Shoot { from_me: false }) ==> (admitted(sfx, active, growls)
            <==> active < MAX_CONCURRENT),
{
}

/// While there is room for all, every queued effect plays, in order.
pub proof fn law_with_room_every_effect_plays(q: Seq<Sfx>, active: nat, growls: nat, n: int)
    requires
        0 <= n <= q.len(),
        active + n < MAX_CONCURRENT,
        growls + n <= MAX_GROWLS,
    ensures
        voices(q, active, growls, n) == q.take(n).map_values(|s: Sfx| voice_for(s)),
    decreases n,
{
    let v = voices(q, active, growls, n);
    if n > 0 {
        law_with_room_every_effect_plays(q, active, growls, n - 1);
        let before = voices(q, active, growls, n - 1);
        lemma_growls_at_most(before, before.len() as int);
    }
    assert(v =~= q.take(n).map_values(|s: Sfx| voice_for(s)));
}

proof fn lemma_growls_at_most(v: Seq<Voice>, n: int)
    requires
        0 <= n <= v.len(),
    ensures
        growl_count(v, n) <= n,
    decreases n,
{
    if n > 0 {
        lemma_growls_at_most(v, n - 1);
    }
}

/// What plays was queued: the voices are those of some of the effects, in the
/// order they were queued.
pub proof fn law_voices_follow_the_queue(q: Seq<Sfx>, active: nat, growls: nat, n: int, k: int)
    requires
        0 <= n <= q.len(),
        0 <= k < voices(q, active, growls, n).len(),
    ensures
        exists|i: int|
            k <= i < n && voices(q, active, growls, n)[k] == voice_for(#[trigger] q[i]) && voices(
                q,
                active,
                growls,
                i,
            ).len() == k,
    decreases n,
{
    let before = voices(q, active, growls, n - 1);
    lemma_voices_at_most(q, active, growls, n - 1);
    if k < before.len() {
        law_voices_follow_the_queue(q, active, growls, n - 1, k);
        let i = choose|i: int|
            k <= i < n - 1 && before[k] == voice_for(#[trigger] q[i]) && voices(
                q,
                active,
                growls,
                i,
            ).len() == k;
        assert(voices(q, active, growls, n)[k] == voice_for(q[i]));
    } else {
        assert(voices(q, active, growls, n)[k] == voice_for(q[n - 1]));
    }
}

proof fn lemma_voices_at_most(q: Seq<Sfx>, active: nat, growls: nat, n: int)
    ensures
        voices(q, active, growls, n).len() <= (if n <= 0 {
            0
        } else {
            n
        }),
    decreases n,
{
    if n > 0 {
        lemma_voices_at_most(q, active, growls, n - 1);
    }
}

/// The growls among the voices are counted one by one.
pub proof fn law_growls_are_counted(v: Seq<Voice>, n: int)
    requires
        0 <= n <= v.len(),
    ensures
        growl_count(v, n) == v.take(n).filter(|x: Voice| x.growl).len(),
    decreases n,
{
    reveal(Seq::filter);
    if n > 0 {
        law_growls_are_counted(v, n - 1);
        assert(v.take(n).drop_last() =~= v.take(n - 1));
        assert(v.take(n).last() == v[n - 1]);
    }
}

/// So many samples last so many milliseconds, as closely as whole samples can.
pub proof fn law_samples_last_their_time(ms: u32)
    ensures
        2 * (1000 * sample_count(ms) - 44_100 * ms) <= 1000,
        2 * (44_100 * ms - 1000 * sample_count(ms)) < 1000,
{
}

} // verus!
