//! Proximity voice: framing, the per-speaker jitter buffer, capture gating and
//! the mute rules.
//!
//! Nothing here blocks a frame: every queue is bounded and drops its oldest
//! entry on overflow.

use std::collections::{BTreeMap, VecDeque};
use vstd::prelude::*;
use crate::game::Session;
use crate::platform::Target;
use crate::scalar::F32;

verus! {

broadcast use {vstd::std_specs::btree::group_btree_axioms, vstd::laws_cmp::group_laws_cmp};

/// Capture and playback sample rate in hertz.
pub const VOICE_SAMPLE_RATE: u32 = 16_000;

/// Nominal frame duration in milliseconds.
pub const VOICE_FRAME_MS: u32 = 120;

/// Samples per frame.
pub const FRAME_SAMPLES: usize = 1920;

/// Bytes per mono 16-bit frame, the most a voice packet carries.
pub const FRAME_BYTES: usize = FRAME_SAMPLES * 2;

/// Playout starts once this many frames are buffered.
pub const JITTER_START: usize = 2;

/// Most frames kept per speaker.
pub const JITTER_CAP: usize = 4;

/// Most frames sent per poll.
pub const FRAMES_PER_POLL: usize = 4;

/// Captured chunks kept before the next one joins.
pub const RAW_CHUNKS: usize = 32;

/// A frame holds exactly the samples of its nominal duration.
pub proof fn law_frame_lasts_its_duration()
    ensures
        FRAME_SAMPLES * 1000 == VOICE_SAMPLE_RATE * VOICE_FRAME_MS,
        FRAME_BYTES == 2 * FRAME_SAMPLES,
{
}

// ---- PCM ----------------------------------------------------------------

/// The two's-complement sample that two little-endian bytes stand for.
pub open spec fn le_sample(lo: u8, hi: u8) -> i16 {
    let u = lo + 256 * hi;
    if u < 0x8000 {
        u as i16
    } else {
        (u - 0x1_0000) as i16
    }
}

/// Low byte of a sample.
pub open spec fn low_byte(s: i16) -> u8 {
    (s as int % 256) as u8
}

/// High byte of a sample.
pub open spec fn high_byte(s: i16) -> u8 {
    ((s as int / 256) % 256) as u8
}

/// Samples of a little-endian byte string; an odd trailing byte is dropped.
pub open spec fn decoded(pcm: Seq<u8>) -> Seq<i16> {
    Seq::new((pcm.len() / 2) as nat, |i: int| le_sample(pcm[2 * i], pcm[2 * i + 1]))
}

/// Little-endian bytes of samples.
pub open spec fn encoded(samples: Seq<i16>) -> Seq<u8> {
    Seq::new(
        2 * samples.len(),
        |i: int| if i % 2 == 0 { low_byte(samples[i / 2]) } else { high_byte(samples[i / 2]) },
    )
}

/// Decodes little-endian mono 16-bit PCM. An odd trailing byte is dropped.
pub fn pcm_bytes_to_i16(pcm: &[u8]) -> (out: Vec<i16>)
    ensures
        out@ == decoded(pcm@),
{
    let n: usize = pcm.len() / 2;
    let mut out: Vec<i16> = Vec::new();
    for i in 0..n
        invariant
            n == pcm.len() / 2,
            out@ == decoded(pcm@).take(i as int),
    {
        let u: u16 = pcm[i * 2] as u16 + 256 * pcm[i * 2 + 1] as u16;
        let s: i16 = if u < 0x8000 { u as i16 } else { (u as i32 - 0x1_0000) as i16 };
        out.push(s);
        assert(out@ =~= decoded(pcm@).take(i + 1));
    }
    assert(decoded(pcm@).take(n as int) =~= decoded(pcm@));
    out
}

/// Encodes mono 16-bit samples as little-endian PCM.
pub fn i16_to_pcm_bytes(samples: &[i16]) -> (out: Vec<u8>)
    ensures
        out@ == encoded(samples@),
{
    let mut out: Vec<u8> = Vec::new();
    for i in 0..samples.len()
        invariant
            out@ == encoded(samples@).take(2 * i),
    {
        let s: i16 = samples[i];
        let u: u16 = if s < 0 { (s as i32 + 0x1_0000) as u16 } else { s as u16 };
        let lo: u8 = (u % 256) as u8;
        let hi: u8 = (u / 256) as u8;
        out.push(lo);
        out.push(hi);
        assert(lo == low_byte(s) && hi == high_byte(s));
        assert(out@ =~= encoded(samples@).take(2 * (i + 1)));
    }
    assert(encoded(samples@).take(2 * samples@.len() as int) =~= encoded(samples@));
    out
}

/// Decoding gives back exactly what was encoded, two bytes per sample.
pub proof fn law_pcm_round_trip(samples: Seq<i16>)
    ensures
        encoded(samples).len() == 2 * samples.len(),
        decoded(encoded(samples)) == samples,
{
    let bytes = encoded(samples);
    assert forall|i: int| 0 <= i < samples.len() implies decoded(bytes)[i] == samples[i] by {
        assert((2 * i) % 2 == 0 && (2 * i) / 2 == i);
        assert((2 * i + 1) % 2 == 1 && (2 * i + 1) / 2 == i);
        lemma_sample_bytes(samples[i]);
    }
    assert(decoded(bytes) =~= samples);
}

proof fn lemma_sample_bytes(s: i16)
    ensures
        le_sample(low_byte(s), high_byte(s)) == s,
{
}

/// Encoding gives back the bytes that were decoded, less an odd trailing one.
pub proof fn law_pcm_bytes_round_trip(pcm: Seq<u8>)
    ensures
        encoded(decoded(pcm)) == pcm.take(pcm.len() - pcm.len() % 2),
{
    let samples = decoded(pcm);
    assert(encoded(samples) =~= pcm.take(pcm.len() - pcm.len() % 2)) by {
        assert forall|i: int| 0 <= i < 2 * samples.len() implies encoded(samples)[i] == pcm[i] by {
            let k = i / 2;
            assert(samples[k] == le_sample(pcm[2 * k], pcm[2 * k + 1]));
            assert(low_byte(samples[k]) == pcm[2 * k] && high_byte(samples[k]) == pcm[2 * k + 1]);
        }
    }
}

// ---- jitter buffer --------------------------------------------------------

/// The lowest key of a map.
pub open spec fn is_lowest<V>(m: Map<u64, V>, k: u64) -> bool {
    m.contains_key(k) && forall|j: u64| #[trigger] m.contains_key(j) ==> k <= j
}

fn lowest_key(m: &BTreeMap<u64, Vec<i16>>) -> (r: Option<u64>)
    ensures
        match r {
            Some(k) => is_lowest(m@, k),
            None => m@.len() == 0,
        },
{
    for k in it: m.keys()
        invariant
            it.index() == 0,
    {
        proof {
            let all = it.seq();
            assert(all.unref().to_set() == m@.dom());
            assert(all.unref()[0] == *k);
            assert(all.unref().to_set().contains(*k));
            assert forall|j: u64| #[trigger] m@.contains_key(j) implies *k <= j by {
                assert(all.unref().to_set().contains(j));
                let i = choose|i: int| 0 <= i < all.unref().len() && all.unref()[i] == j;
                if i > 0 {
                    assert(vstd::std_specs::cmp::OrdSpec::cmp_spec(&all[0], &all[i]) is Less);
                }
            }
        }
        return Some(*k);
    }
    None
}

/// What a jitter buffer holds.
#[verifier::ext_equal]
pub struct JitterView {
    /// Buffered frames by sequence number.
    pub frames: Map<u64, Seq<i16>>,
    /// Sequence number played next, once started.
    pub next_seq: u64,
    pub started: bool,
    pub capacity: nat,
    pub start_threshold: nat,
}

impl JitterView {
    /// Bounded, no empty frame, nothing older than what plays next.
    pub open spec fn wf(self) -> bool {
        &&& self.capacity >= 1
        &&& self.start_threshold >= 1
        &&& self.frames.dom().finite()
        &&& self.frames.len() <= self.capacity
        &&& forall|k: u64| #[trigger] self.frames.contains_key(k) ==> self.frames[k].len() > 0
        &&& self.started ==> forall|k: u64| #[trigger]
            self.frames.contains_key(k) ==> self.next_seq <= k
    }

    /// A frame that would be ignored: empty, already played, or a duplicate.
    pub open spec fn ignores(self, seq: u64, samples: Seq<i16>) -> bool {
        samples.len() == 0 || (self.started && seq < self.next_seq) || self.frames.contains_key(seq)
    }
}

/// The lowest sequence number of a non-empty map.
pub open spec fn lowest<V>(m: Map<u64, V>) -> u64 {
    choose|k: u64| is_lowest(m, k)
}

/// A map without its lowest entry.
pub open spec fn without_lowest<V>(m: Map<u64, V>) -> Map<u64, V> {
    m.remove(lowest(m))
}

/// The buffer after a frame arrived.
pub open spec fn pushed(v: JitterView, seq: u64, samples: Seq<i16>) -> JitterView {
    if v.ignores(seq, samples) {
        v
    } else {
        let more = v.frames.insert(seq, samples);
        if more.len() > v.capacity {
            JitterView { frames: without_lowest(more), ..v }
        } else {
            JitterView { frames: more, ..v }
        }
    }
}

/// The buffer once playout may begin: the earliest frame comes first.
pub open spec fn primed(v: JitterView) -> JitterView {
    if !v.started && v.frames.len() >= v.start_threshold {
        JitterView { started: true, next_seq: lowest(v.frames), ..v }
    } else {
        v
    }
}

/// `n + 1`, or `n` where there is no next number.
pub open spec fn next_after(n: u64) -> u64 {
    if n < u64::MAX {
        (n + 1) as u64
    } else {
        n
    }
}

/// The frame due now, if it is there.
pub open spec fn due_frame(v: JitterView) -> Option<Seq<i16>> {
    let p = primed(v);
    if p.started && p.frames.contains_key(p.next_seq) {
        Some(p.frames[p.next_seq])
    } else {
        None
    }
}

/// The buffer after one playout tick.
pub open spec fn popped(v: JitterView) -> JitterView {
    let p = primed(v);
    if due_frame(v) is Some {
        JitterView { frames: p.frames.remove(p.next_seq), next_seq: next_after(p.next_seq), ..p }
    } else {
        p
    }
}

/// A map has one lowest key.
pub proof fn lemma_lowest<V>(m: Map<u64, V>, k: u64)
    requires
        is_lowest(m, k),
    ensures
        lowest(m) == k,
{
    let l = lowest(m);
    assert(is_lowest(m, l));
    assert(m.contains_key(l) && m.contains_key(k));
}

/// A finite map with an entry has a lowest key.
pub proof fn lemma_lowest_exists<V>(m: Map<u64, V>)
    requires
        m.dom().finite(),
        m.len() > 0,
    ensures
        is_lowest(m, lowest(m)),
    decreases m.len(),
{
    let k = m.dom().choose();
    assert(m.contains_key(k));
    let rest = m.remove(k);
    if rest.len() == 0 {
        assert forall|j: u64| #[trigger] m.contains_key(j) implies k <= j by {
            if j != k {
                assert(rest.dom().contains(j));
            }
        }
        assert(is_lowest(m, k));
    } else {
        lemma_lowest_exists(rest);
        let l = lowest(rest);
        assert(rest.contains_key(l));
        let best = if k < l { k } else { l };
        assert forall|j: u64| #[trigger] m.contains_key(j) implies best <= j by {
            if j != k {
                assert(rest.contains_key(j));
            }
        }
        assert(is_lowest(m, best));
    }
}

/// Per-speaker reorder buffer. Frames carry a sequence number; playout follows
/// it whatever the order of arrival.
#[derive(Debug)]
pub struct JitterBuffer {
    pending: BTreeMap<u64, Vec<i16>>,
    next_seq: u64,
    started: bool,
    capacity: usize,
    start_threshold: usize,
}

impl View for JitterBuffer {
    type V = JitterView;

    closed spec fn view(&self) -> JitterView {
        JitterView {
            frames: self.pending@.map_values(|v: Vec<i16>| v@),
            next_seq: self.next_seq,
            started: self.started,
            capacity: self.capacity as nat,
            start_threshold: self.start_threshold as nat,
        }
    }
}

impl JitterBuffer {
    /// An empty buffer that keeps at most `capacity` frames and starts playing
    /// at `start_threshold` of them; both count as one where zero is given.
    pub fn new(capacity: usize, start_threshold: usize) -> (r: Self)
        ensures
            r@.wf(),
            r@ == (JitterView {
                frames: Map::empty(),
                next_seq: 0,
                started: false,
                capacity: if capacity == 0 { 1 } else { capacity as nat },
                start_threshold: if start_threshold == 0 { 1 } else { start_threshold as nat },
            }),
    {
        let r = JitterBuffer {
            pending: BTreeMap::new(),
            next_seq: 0,
            started: false,
            capacity: if capacity == 0 { 1 } else { capacity },
            start_threshold: if start_threshold == 0 { 1 } else { start_threshold },
        };
        assert(r@.frames =~= Map::empty());
        r
    }

    /// The buffer a speaker gets.
    pub fn with_defaults() -> (r: Self)
        ensures
            r@ == fresh_jitter(),
            r@.wf(),
    {
        JitterBuffer::new(JITTER_CAP, JITTER_START)
    }

    pub fn is_empty(&self) -> (r: bool)
        ensures
            r == (self@.frames == Map::<u64, Seq<i16>>::empty()),
    {
        let r = self.pending.is_empty();
        proof {
            if r {
                assert(self.pending@.dom() =~= Set::empty());
                assert(self@.frames =~= Map::empty());
            } else if self@.frames == Map::<u64, Seq<i16>>::empty() {
                assert(self@.frames.dom() =~= self.pending@.dom());
                assert(self.pending@.dom() =~= Set::empty());
            }
        }
        r
    }

    /// Inserts a frame. Empty frames, duplicates and frames older than the one
    /// played next are ignored. Overflow drops the oldest frame.
    pub fn push(&mut self, seq: u64, samples: Vec<i16>)
        requires
            old(self)@.wf(),
        ensures
            final(self)@.wf(),
            final(self)@ == pushed(old(self)@, seq, samples@),
    {
        let ghost v0 = self@;
        proof {
            assert(v0.frames.dom() =~= self.pending@.dom());
        }
        if samples.len() == 0 {
            return;
        }
        if self.started && seq < self.next_seq {
            return;
        }
        if self.pending.contains_key(&seq) {
            return;
        }
        let ghost more = v0.frames.insert(seq, samples@);
        self.pending.insert(seq, samples);
        assert(self@.frames =~= more);
        assert(self@.frames.dom() =~= self.pending@.dom());
        assert(more.dom() =~= v0.frames.dom().insert(seq));
        if self.pending.len() > self.capacity {
            match lowest_key(&self.pending) {
                Some(k) => {
                    proof {
                        assert forall|j: u64| #[trigger] more.contains_key(j) implies k <= j by {
                            assert(self.pending@.contains_key(j));
                        }
                        lemma_lowest(more, k);
                    }
                    self.pending.remove(&k);
                    assert(self@.frames =~= more.remove(k));
                    assert(more.remove(k).dom() =~= more.dom().remove(k));
                },
                None => {},
            }
        }
    }

    /// The next frame in sequence, if it is there.
    ///
    /// - Before the start: nothing until enough frames are buffered, then the
    ///   earliest one.
    /// - After the start: the next frame; on a gap or an empty buffer nothing
    ///   (silence), and the position does not move, so that a late frame can
    ///   still fill the hole.
    pub fn pop(&mut self) -> (r: Option<Vec<i16>>)
        requires
            old(self)@.wf(),
        ensures
            final(self)@.wf(),
            final(self)@ == popped(old(self)@),
            match due_frame(old(self)@) {
                Some(frame) => r is Some && r->0@ == frame,
                None => r is None,
            },
    {
        let ghost v0 = self@;
        proof {
            assert(v0.frames.dom() =~= self.pending@.dom());
        }
        if !self.started {
            if self.pending.len() < self.start_threshold {
                return None;
            }
            match lowest_key(&self.pending) {
                Some(k) => {
                    proof {
                        assert forall|j: u64| #[trigger] v0.frames.contains_key(j) implies k <= j by {
                            assert(self.pending@.contains_key(j));
                        }
                        lemma_lowest(v0.frames, k);
                    }
                    self.next_seq = k;
                    self.started = true;
                },
                None => {
                    return None;
                },
            }
        }
        let ghost p = self@;
        assert(p == primed(v0));
        match self.pending.remove(&self.next_seq) {
            Some(samples) => {
                self.next_seq = self.next_seq.saturating_add(1);
                assert(self@.frames =~= p.frames.remove(p.next_seq));
                assert(self@.frames.dom() =~= p.frames.dom().remove(p.next_seq));
                assert forall|k: u64| #[trigger] self@.frames.contains_key(k) implies self@.next_seq <= k by {
                    assert(p.frames.contains_key(k));
                }
                Some(samples)
            },
            None => {
                assert(self@.frames =~= p.frames);
                None
            },
        }
    }
}

/// What a speaker's buffer starts as.
pub open spec fn fresh_jitter() -> JitterView {
    JitterView {
        frames: Map::empty(),
        next_seq: 0,
        started: false,
        capacity: JITTER_CAP as nat,
        start_threshold: JITTER_START as nat,
    }
}

/// Pushing keeps the buffer bounded and never moves the playout position.
pub proof fn law_push_keeps_bound_and_position(v: JitterView, seq: u64, samples: Seq<i16>)
    requires
        v.wf(),
    ensures
        pushed(v, seq, samples).wf(),
        pushed(v, seq, samples).frames.len() <= v.capacity,
        pushed(v, seq, samples).started == v.started,
        pushed(v, seq, samples).next_seq == v.next_seq,
{
    let more = v.frames.insert(seq, samples);
    assert(more.dom() =~= v.frames.dom().insert(seq));
    if !v.ignores(seq, samples) && more.len() > v.capacity {
        lemma_lowest_exists(more);
        assert(without_lowest(more).dom() =~= more.dom().remove(lowest(more)));
    }
}

/// On overflow the oldest frame goes and every newer one stays.
pub proof fn law_overflow_drops_the_oldest(v: JitterView, seq: u64, samples: Seq<i16>, kept: u64)
    requires
        v.wf(),
        !v.ignores(seq, samples),
        v.frames.len() == v.capacity,
    ensures
        ({
            let more = v.frames.insert(seq, samples);
            let after = pushed(v, seq, samples).frames;
            &&& is_lowest(more, lowest(more))
            &&& !after.contains_key(lowest(more))
            &&& after.len() == v.capacity
            &&& kept != lowest(more) && more.contains_key(kept) ==> after.contains_key(kept)
                && after[kept] == more[kept]
        }),
{
    let more = v.frames.insert(seq, samples);
    assert(more.dom() =~= v.frames.dom().insert(seq));
    lemma_lowest_exists(more);
    assert(without_lowest(more).dom() =~= more.dom().remove(lowest(more)));
}

/// A second frame with the same sequence number changes nothing.
pub proof fn law_duplicates_are_ignored(v: JitterView, seq: u64, first: Seq<i16>, second: Seq<i16>)
    requires
        v.wf(),
        first.len() > 0,
    ensures
        pushed(pushed(v, seq, first), seq, second) == pushed(v, seq, first),
{
    let once = pushed(v, seq, first);
    if !v.ignores(seq, first) {
        let more = v.frames.insert(seq, first);
        assert(more.dom() =~= v.frames.dom().insert(seq));
        if more.len() > v.capacity {
            lemma_lowest_exists(more);
            if lowest(more) == seq {
                // The newcomer itself was the oldest: it goes again.
                assert(without_lowest(more) =~= v.frames);
                assert(once =~= v);
                let again = v.frames.insert(seq, second);
                assert(again.dom() =~= more.dom());
                assert forall|j: u64| #[trigger] again.contains_key(j) implies seq <= j by {
                    assert(more.contains_key(j));
                }
                lemma_lowest(again, seq);
                assert(without_lowest(again) =~= v.frames);
            }
        }
    }
}

/// Nothing plays before the start threshold is reached, and popping changes
/// nothing then.
pub proof fn law_silence_before_the_threshold(v: JitterView)
    requires
        !v.started,
        v.frames.len() < v.start_threshold,
    ensures
        due_frame(v) is None,
        popped(v) == v,
{
}

/// A gap is silence, and popping does not move past it: a late frame that
/// arrives in time still plays.
pub proof fn law_gap_waits_for_late_frame(v: JitterView, late: Seq<i16>)
    requires
        v.wf(),
        v.started,
        !v.frames.contains_key(v.next_seq),
        v.frames.len() < v.capacity,
        late.len() > 0,
    ensures
        due_frame(v) is None,
        popped(v) == v,
        due_frame(pushed(v, v.next_seq, late)) == Some(late),
{
    let more = v.frames.insert(v.next_seq, late);
    assert(more.dom() =~= v.frames.dom().insert(v.next_seq));
}

/// Frames play in sequence: after one frame, whatever arrives in between, the
/// next one to play is its direct successor.
pub proof fn law_playout_follows_the_sequence(v: JitterView, seq: u64, samples: Seq<i16>)
    requires
        v.wf(),
        due_frame(v) is Some,
        due_frame(pushed(popped(v), seq, samples)) is Some,
    ensures
        ({
            let first = primed(v).next_seq;
            let then = primed(pushed(popped(v), seq, samples)).next_seq;
            then == next_after(first)
        }),
{
}

/// Popping keeps the buffer well formed.
pub proof fn law_pop_keeps_invariant(v: JitterView)
    requires
        v.wf(),
    ensures
        popped(v).wf(),
        due_frame(v) is Some ==> popped(v).frames.len() + 1 == v.frames.len(),
{
    if !v.started && v.frames.len() >= v.start_threshold {
        lemma_lowest_exists(v.frames);
    }
    let p = primed(v);
    if due_frame(v) is Some {
        assert(p.frames.remove(p.next_seq).dom() =~= p.frames.dom().remove(p.next_seq));
        assert forall|k: u64| #[trigger] popped(v).frames.contains_key(k) implies popped(v).next_seq <= k by {
            assert(p.frames.contains_key(k));
        }
    }
}

/// Two frames of one speaker, sent in order through a fresh buffer, come out in
/// order and unchanged.
pub proof fn law_in_order_frames_come_out_unchanged(a: Seq<i16>, b: Seq<i16>)
    requires
        a.len() > 0,
        b.len() > 0,
    ensures
        ({
            let v = pushed(pushed(fresh_jitter(), 0, a), 1, b);
            &&& due_frame(v) == Some(a)
            &&& due_frame(popped(v)) == Some(b)
            &&& due_frame(popped(popped(v))) is None
        }),
{
    let v0 = fresh_jitter();
    let v1 = pushed(v0, 0, a);
    assert(v0.frames.insert(0, a).dom() =~= Set::<u64>::empty().insert(0));
    let v2 = pushed(v1, 1, b);
    assert(v1.frames.insert(1, b).dom() =~= Set::<u64>::empty().insert(0).insert(1));
    assert(v2.frames.contains_key(0));
    assert(is_lowest(v2.frames, 0));
    lemma_lowest(v2.frames, 0);
}

/// What happens to a buffer: a frame arrives, or a playout tick.
pub enum JitterOp {
    Push(u64, Seq<i16>),
    Pop,
}

/// The buffer after the first `n` operations.
pub open spec fn ran(v: JitterView, ops: Seq<JitterOp>, n: int) -> JitterView
    decreases n,
{
    if n <= 0 {
        v
    } else {
        match ops[n - 1] {
            JitterOp::Push(seq, samples) => pushed(ran(v, ops, n - 1), seq, samples),
            JitterOp::Pop => popped(ran(v, ops, n - 1)),
        }
    }
}

/// What the first `n` operations play, with the sequence numbers.
pub open spec fn played(v: JitterView, ops: Seq<JitterOp>, n: int) -> Seq<(u64, Seq<i16>)>
    decreases n,
{
    if n <= 0 {
        Seq::empty()
    } else {
        let before = played(v, ops, n - 1);
        let now = ran(v, ops, n - 1);
        if ops[n - 1] is Pop && due_frame(now) is Some {
            before.push((primed(now).next_seq, due_frame(now)->0))
        } else {
            before
        }
    }
}

/// A frame with this number and content is among the first `n` arrivals.
pub open spec fn arrived(ops: Seq<JitterOp>, n: int, seq: u64, samples: Seq<i16>) -> bool {
    exists|i: int| 0 <= i < n && #[trigger] ops[i] == JitterOp::Push(seq, samples)
}

/// A buffer that nothing has happened to.
pub open spec fn untouched(v: JitterView) -> bool {
    v.wf() && !v.started && v.frames == Map::<u64, Seq<i16>>::empty()
}

/// Every number has a successor.
pub open spec fn numbers_go_on(ops: Seq<JitterOp>) -> bool {
    forall|i: int|
        0 <= i < ops.len() ==> (#[trigger] ops[i] matches JitterOp::Push(seq, _) ==> seq
            < u64::MAX)
}

/// However arrivals and ticks interleave, playout counts up one by one from the
/// first frame played, none skipped and none twice, and every frame played is one
/// that arrived, with the number it arrived with.
pub proof fn law_playout_counts_up(v: JitterView, ops: Seq<JitterOp>, n: int, k: int)
    requires
        untouched(v),
        numbers_go_on(ops),
        0 <= n <= ops.len(),
        0 <= k < played(v, ops, n).len(),
    ensures
        played(v, ops, n)[k].0 == played(v, ops, n)[0].0 + k,
        arrived(ops, n, played(v, ops, n)[k].0, played(v, ops, n)[k].1),
{
    lemma_run(v, ops, n);
}

spec fn run_inv(v: JitterView, ops: Seq<JitterOp>, n: int) -> bool {
    let now = ran(v, ops, n);
    let out = played(v, ops, n);
    &&& now.wf()
    &&& now.capacity == v.capacity
    &&& now.start_threshold == v.start_threshold
    &&& now.started == (out.len() > 0)
    &&& out.len() > 0 ==> now.next_seq == out[0].0 + out.len()
    &&& forall|k: int|
        0 <= k < out.len() ==> (#[trigger] out[k]).0 == out[0].0 + k && arrived(
            ops,
            n,
            out[k].0,
            out[k].1,
        )
    &&& forall|s: u64| #[trigger]
        now.frames.contains_key(s) ==> s < u64::MAX && arrived(ops, n, s, now.frames[s])
}

proof fn lemma_arrived_grows(ops: Seq<JitterOp>, n: int)
    requires
        n > 0,
    ensures
        forall|s: u64, f: Seq<i16>| arrived(ops, n - 1, s, f) ==> #[trigger] arrived(ops, n, s, f),
{
    assert forall|s: u64, f: Seq<i16>| arrived(ops, n - 1, s, f) implies #[trigger] arrived(
        ops,
        n,
        s,
        f,
    ) by {
        let i = choose|i: int| 0 <= i < n - 1 && #[trigger] ops[i] == JitterOp::Push(s, f);
        assert(ops[i] == JitterOp::Push(s, f));
    }
}

proof fn lemma_run(v: JitterView, ops: Seq<JitterOp>, n: int)
    requires
        untouched(v),
        numbers_go_on(ops),
        0 <= n <= ops.len(),
    ensures
        run_inv(v, ops, n),
    decreases n,
{
    if n > 0 {
        lemma_run(v, ops, n - 1);
        lemma_arrived_grows(ops, n);
        let before = ran(v, ops, n - 1);
        let now = ran(v, ops, n);
        let out = played(v, ops, n - 1);
        let more = played(v, ops, n);
        match ops[n - 1] {
            JitterOp::Push(seq, samples) => {
                law_push_keeps_bound_and_position(before, seq, samples);
                assert(arrived(ops, n, seq, samples));
                assert forall|s: u64| #[trigger] now.frames.contains_key(s) implies s < u64::MAX
                    && arrived(ops, n, s, now.frames[s]) by {
                    if before.frames.contains_key(s) {
                        assert(now.frames[s] == before.frames[s]);
                        assert(arrived(ops, n - 1, s, before.frames[s]));
                    }
                }
            },
            JitterOp::Pop => {
                law_pop_keeps_invariant(before);
                law_playout_starts_at_the_lowest(before);
                if due_frame(before) is Some {
                    let s = primed(before).next_seq;
                    assert(before.frames.contains_key(s));
                    assert(arrived(ops, n - 1, s, before.frames[s]));
                    assert(arrived(ops, n, s, before.frames[s]));
                    assert forall|k: int| 0 <= k < more.len() implies (#[trigger] more[k]).0
                        == more[0].0 + k && arrived(ops, n, more[k].0, more[k].1) by {
                        if k < out.len() {
                            assert(more[k] == out[k]);
                        }
                        if out.len() > 0 {
                            assert(more[0] == out[0]);
                        }
                    }
                }
                assert forall|s: u64| #[trigger] now.frames.contains_key(s) implies s < u64::MAX
                    && arrived(ops, n, s, now.frames[s]) by {
                    assert(before.frames.contains_key(s));
                    assert(arrived(ops, n - 1, s, before.frames[s]));
                }
            },
        }
    }
}

/// Playout starts at the first tick with enough frames buffered, and with the
/// frame that has the lowest number.
pub proof fn law_playout_starts_at_the_lowest(v: JitterView)
    requires
        v.wf(),
    ensures
        !v.started ==> (due_frame(v) is Some <==> v.frames.len() >= v.start_threshold),
        !v.started && due_frame(v) is Some ==> is_lowest(v.frames, primed(v).next_seq) && due_frame(
            v,
        ) == Some(v.frames[primed(v).next_seq]),
{
    if !v.started && v.frames.len() >= v.start_threshold {
        lemma_lowest_exists(v.frames);
    }
}

/// A buffer that cannot hold as many frames as it waits for never plays.
pub proof fn law_threshold_beyond_capacity_never_plays(v: JitterView, ops: Seq<JitterOp>, n: int)
    requires
        untouched(v),
        v.start_threshold > v.capacity,
        0 <= n <= ops.len(),
    ensures
        played(v, ops, n) == Seq::<(u64, Seq<i16>)>::empty(),
        ({
            let now = ran(v, ops, n);
            &&& now.wf()
            &&& !now.started
            &&& now.capacity == v.capacity
            &&& now.start_threshold == v.start_threshold
        }),
    decreases n,
{
    if n > 0 {
        law_threshold_beyond_capacity_never_plays(v, ops, n - 1);
        match ops[n - 1] {
            JitterOp::Push(seq, samples) => {
                law_push_keeps_bound_and_position(ran(v, ops, n - 1), seq, samples);
            },
            JitterOp::Pop => {},
        }
    }
}

// ---- capture --------------------------------------------------------------

/// A backend that yields complete PCM frames.
pub trait CaptureSource {
    /// Turns microphone consumption on or off. Does not release the device.
    fn set_enabled(&mut self, enabled: bool);

    /// Frames completed since the last call.
    fn drain_frames(&mut self) -> Vec<Vec<u8>>;

    /// Opens the device, or asks for permission to.
    fn ensure_started(&mut self);

    /// Frames are being produced, or could be.
    fn is_ready(&self) -> bool;
}

/// A capture source fed by hand.
#[derive(Debug)]
pub struct FakeCapture {
    pub enabled: bool,
    pub ready: bool,
    pub queue: VecDeque<Vec<u8>>,
}

impl FakeCapture {
    pub fn new() -> (r: Self)
        ensures
            !r.enabled,
            !r.ready,
            r.queue@ == Seq::<Vec<u8>>::empty(),
    {
        FakeCapture { enabled: false, ready: false, queue: VecDeque::new() }
    }

    pub fn push_frame(&mut self, pcm: Vec<u8>)
        ensures
            final(self).queue@ == old(self).queue@.push(pcm),
            final(self).enabled == old(self).enabled,
            final(self).ready == old(self).ready,
    {
        self.queue.push_back(pcm);
    }
}

impl CaptureSource for FakeCapture {
    fn set_enabled(&mut self, enabled: bool)
        ensures
            final(self).enabled == enabled,
            final(self).ready == old(self).ready,
            final(self).queue == old(self).queue,
    {
        self.enabled = enabled;
    }

    /// Everything queued, or nothing while turned off; either way the queue is
    /// empty afterwards.
    fn drain_frames(&mut self) -> (r: Vec<Vec<u8>>)
        ensures
            r@ == (if old(self).enabled {
                old(self).queue@
            } else {
                Seq::empty()
            }),
            final(self).queue@ == Seq::<Vec<u8>>::empty(),
            final(self).enabled == old(self).enabled,
            final(self).ready == old(self).ready,
    {
        let ghost q = self.queue@;
        let ghost on = self.enabled;
        let ghost ready = self.ready;
        let mut out: Vec<Vec<u8>> = Vec::new();
        if !self.enabled {
            self.queue.clear();
            return out;
        }
        let ghost mut n: int = 0;
        assert(q.skip(0) =~= q);
        while self.queue.len() > 0
            invariant
                0 <= n <= q.len(),
                self.queue@ == q.skip(n),
                out@ == q.take(n),
                self.enabled == on,
                self.ready == ready,
            decreases self.queue@.len(),
        {
            match self.queue.pop_front() {
                Some(frame) => {
                    out.push(frame);
                    proof {
                        n = n + 1;
                        assert(self.queue@ =~= q.skip(n));
                        assert(out@ =~= q.take(n));
                    }
                },
                None => {},
            }
        }
        assert(n == q.len());
        assert(q.take(n) =~= q);
        out
    }

    fn ensure_started(&mut self)
        ensures
            final(self).ready,
            final(self).enabled == old(self).enabled,
            final(self).queue == old(self).queue,
    {
        self.ready = true;
    }

    fn is_ready(&self) -> (r: bool)
        ensures
            r == self.ready,
    {
        self.ready
    }
}

/// Cuts samples into frames.
#[derive(Debug)]
pub struct FrameAssembler {
    pub in_rate: u32,
    /// Samples that do not fill a frame yet.
    pub accum: Vec<i16>,
}

/// How many whole frames some samples fill.
pub open spec fn whole_frames(samples: Seq<i16>) -> nat {
    samples.len() / (FRAME_SAMPLES as nat)
}

/// Frame `k` of some samples, as bytes.
pub open spec fn frame_at(samples: Seq<i16>, k: int) -> Seq<u8> {
    encoded(samples.subrange(k * FRAME_SAMPLES, (k + 1) * FRAME_SAMPLES))
}

/// The samples of all chunks, one after the other.
pub open spec fn joined(chunks: Seq<Vec<i16>>, n: int) -> Seq<i16>
    decreases n,
{
    if n <= 0 {
        Seq::empty()
    } else {
        joined(chunks, n - 1) + chunks[n - 1]@
    }
}

/// These are frames `from` and later of the samples.
pub open spec fn are_frames(frames: Seq<Vec<u8>>, samples: Seq<i16>, from: int) -> bool {
    &&& frames.len() + from == whole_frames(samples)
    &&& forall|k: int|
        0 <= k < frames.len() ==> (#[trigger] frames[k])@ == frame_at(samples, k + from)
}

impl FrameAssembler {
    /// Less than a frame is waiting.
    pub open spec fn wf(self) -> bool {
        self.accum@.len() < FRAME_SAMPLES
    }

    /// An empty assembler for samples at this rate; zero counts as one.
    pub fn new(in_rate: u32) -> (r: Self)
        ensures
            r.in_rate == (if in_rate == 0 {
                1
            } else {
                in_rate
            }),
            r.accum@ == Seq::<i16>::empty(),
            r.wf(),
    {
        FrameAssembler { in_rate: if in_rate == 0 { 1 } else { in_rate }, accum: Vec::new() }
    }

    /// Takes samples at the voice rate and gives back every frame they
    /// complete. What is left waits for more.
    pub fn push_i16(&mut self, input: &Vec<i16>) -> (frames: Vec<Vec<u8>>)
        requires
            old(self).wf(),
            old(self).accum@.len() + input@.len() <= usize::MAX,
        ensures
            final(self).wf(),
            final(self).in_rate == old(self).in_rate,
            ({
                let all = old(self).accum@ + input@;
                &&& are_frames(frames@, all, 0)
                &&& final(self).accum@ == all.skip(whole_frames(all) * FRAME_SAMPLES)
            }),
    {
        let ghost all = self.accum@ + input@;
        let ghost rate = self.in_rate;
        let total: usize = self.accum.len() + input.len();
        self.accum.extend_from_slice(input.as_slice());
        assert(self.accum@ =~= all);
        let count: usize = total / FRAME_SAMPLES;
        let mut frames: Vec<Vec<u8>> = Vec::new();
        for k in 0..count
            invariant
                self.in_rate == rate,
                self.accum@ == all,
                all.len() == total,
                count == total / FRAME_SAMPLES,
                frames@.len() == k,
                forall|j: int|
                    0 <= j < k ==> (#[trigger] frames@[j])@ == frame_at(all, j),
        {
            let from: usize = k * FRAME_SAMPLES;
            let mut chunk: Vec<i16> = Vec::new();
            for j in 0..FRAME_SAMPLES
                invariant
                    self.accum@ == all,
                    all.len() == total,
                    k < count,
                    count == total / FRAME_SAMPLES,
                    from == k * FRAME_SAMPLES,
                    chunk@ == all.subrange(from as int, from + j),
            {
                chunk.push(self.accum[from + j]);
                assert(chunk@ =~= all.subrange(from as int, from + j + 1));
            }
            assert(chunk@ =~= all.subrange(k * FRAME_SAMPLES, (k + 1) * FRAME_SAMPLES));
            frames.push(i16_to_pcm_bytes(chunk.as_slice()));
        }
        let rest: Vec<i16> = self.accum.split_off(count * FRAME_SAMPLES);
        assert(rest@ =~= all.skip(count * FRAME_SAMPLES));
        self.accum = rest;
        frames
    }

    /// One poll of the capture queue: everything that arrived is framed, and
    /// only the newest few frames are sent on.
    pub fn drain_frames(&mut self, chunks: &Vec<Vec<i16>>) -> (frames: Vec<Vec<u8>>)
        requires
            old(self).wf(),
            old(self).accum@.len() + joined(chunks@, chunks@.len() as int).len() <= usize::MAX,
        ensures
            final(self).wf(),
            final(self).in_rate == old(self).in_rate,
            ({
                let all = old(self).accum@ + joined(chunks@, chunks@.len() as int);
                let skipped = if whole_frames(all) > FRAMES_PER_POLL {
                    whole_frames(all) - FRAMES_PER_POLL
                } else {
                    0
                };
                &&& are_frames(frames@, all, skipped)
                &&& final(self).accum@ == all.skip(whole_frames(all) * FRAME_SAMPLES)
            }),
    {
        let mut input: Vec<i16> = Vec::new();
        for i in 0..chunks.len()
            invariant
                input@ == joined(chunks@, i as int),
        {
            input.extend_from_slice(chunks[i].as_slice());
            assert(input@ =~= joined(chunks@, i + 1));
        }
        let mut frames = self.push_i16(&input);
        let ghost every = frames@;
        if frames.len() > FRAMES_PER_POLL {
            let extra: usize = frames.len() - FRAMES_PER_POLL;
            let newest = frames.split_off(extra);
            assert forall|k: int| 0 <= k < newest@.len() implies (#[trigger] newest@[k])@
                == frame_at(old(self).accum@ + input@, k + extra) by {
                assert(newest@[k] == every[k + extra]);
            }
            return newest;
        }
        frames
    }

    /// Muting forgets what is waiting.
    pub fn reset(&mut self)
        ensures
            final(self).accum@ == Seq::<i16>::empty(),
            final(self).in_rate == old(self).in_rate,
            final(self).wf(),
    {
        self.accum = Vec::new();
    }
}

/// Framing loses nothing: sample `at` of frame `k`, decoded, is the sample that
/// went in at that place, and every frame has the full length.
#[verifier::spinoff_prover]
pub proof fn law_framing_loses_nothing(samples: Seq<i16>, k: int, at: int)
    requires
        0 <= k < whole_frames(samples),
        0 <= at < FRAME_SAMPLES,
    ensures
        frame_at(samples, k).len() == FRAME_BYTES,
        decoded(frame_at(samples, k))[at] == samples[k * FRAME_SAMPLES + at],
{
    let chunk = samples.subrange(k * FRAME_SAMPLES, (k + 1) * FRAME_SAMPLES);
    assert((k + 1) * 1920 <= samples.len()) by {
        assert(k + 1 <= samples.len() / 1920);
    }
    assert(chunk.len() == FRAME_SAMPLES);
    assert(chunk[at] == samples[k * FRAME_SAMPLES + at]);
    law_pcm_round_trip(chunk);
    assert(decoded(encoded(chunk))[at] == chunk[at]);
}

/// Adds a captured chunk; before, the oldest go while too many wait.
pub fn enqueue_chunk<T>(queue: &mut VecDeque<Vec<T>>, chunk: Vec<T>)
    ensures
        final(queue)@ == crate::predict::newest(old(queue)@, RAW_CHUNKS as int).push(chunk),
{
    let ghost q = queue@;
    assert(q.skip(0) =~= q);
    while queue.len() > RAW_CHUNKS
        invariant
            queue@ == q.skip(q.len() - queue@.len()),
            queue@.len() <= q.len(),
            queue@.len() >= RAW_CHUNKS || queue@.len() == q.len(),
        decreases queue@.len(),
    {
        let ghost before = queue@;
        queue.pop_front();
        assert(queue@ =~= before.skip(1));
        assert(queue@ =~= q.skip(q.len() - queue@.len()));
    }
    queue.push_back(chunk);
}

/// The live capture's gate: what the platform captured reaches the wire only
/// while enabled.
#[derive(Clone, Copy, Debug, PartialEq, Eq, Structural)]
pub struct LiveCapture {
    pub enabled: bool,
    pub ready: bool,
    /// A device is open (native only).
    pub device_open: bool,
}

impl LiveCapture {
    pub fn new() -> (r: Self)
        ensures
            !r.enabled,
            !r.ready,
            !r.device_open,
    {
        LiveCapture { enabled: false, ready: false, device_open: false }
    }

    pub fn set_enabled(&mut self, enabled: bool)
        ensures
            *final(self) == (LiveCapture { enabled, ..*old(self) }),
    {
        self.enabled = enabled;
    }

    /// Passes on what the platform captured, or drops it while disabled.
    pub fn drain_frames(&self, captured: Vec<Vec<u8>>) -> (r: Vec<Vec<u8>>)
        ensures
            r@ == (if self.enabled {
                captured@
            } else {
                Seq::empty()
            }),
    {
        if self.enabled {
            captured
        } else {
            Vec::new()
        }
    }

    /// The outcome of a native start: `opened` is what opening a device gave,
    /// where none was open.
    pub fn started_native(&mut self, opened: bool)
        ensures
            final(self).enabled == old(self).enabled,
            final(self).device_open == (old(self).device_open || opened),
            final(self).ready == (old(self).device_open || opened),
    {
        if opened {
            self.device_open = true;
        }
        self.ready = self.device_open;
    }

    /// The outcome of a browser start: whether the page has the microphone.
    pub fn started_web(&mut self, mic_ready: bool)
        ensures
            *final(self) == (LiveCapture { ready: mic_ready, ..*old(self) }),
    {
        self.ready = mic_ready;
    }

    /// In a browser the page may have got the microphone in the meantime.
    pub fn is_ready(&self, target: Target, mic_ready: bool) -> (r: bool)
        ensures
            r == (self.ready || (target is Wasm && mic_ready)),
    {
        self.ready || (matches!(target, Target::Wasm) && mic_ready)
    }
}

// ---- mute -----------------------------------------------------------------

/// Mute and microphone state.
#[derive(Clone, Copy, Debug, PartialEq, Eq, Structural)]
pub struct VoiceState {
    /// Privacy mute; on until the player turns it off.
    pub muted: bool,
    /// The microphone was opened at least once.
    pub mic_ready: bool,
    /// The microphone was refused.
    pub mic_denied: bool,
    /// Captured frames are being sent.
    pub self_live: bool,
}

impl Default for VoiceState {
    fn default() -> (r: Self)
        ensures
            r == (VoiceState {
                muted: true,
                mic_ready: false,
                mic_denied: false,
                self_live: false,
            }),
    {
        VoiceState { muted: true, mic_ready: false, mic_denied: false, self_live: false }
    }
}

/// What to do with the microphone.
#[derive(Clone, Copy, Debug, PartialEq, Eq, Structural)]
pub enum MicStep {
    /// Nothing; in particular, send nothing.
    Idle,
    /// Start capture, then report how that went.
    Start,
    /// Stop consuming the microphone.
    Disable,
    /// Send what was captured; first turn consumption on where asked to.
    Drain { enable: bool },
}

/// What a frame of capture begins with.
pub open spec fn capture_step(v: VoiceState, session: Session, target: Target) -> MicStep {
    if !(session is Playing) || v.muted {
        MicStep::Idle
    } else if target is Wasm {
        MicStep::Start
    } else {
        MicStep::Drain { enable: false }
    }
}

/// Privacy: a muted client never touches the microphone, and neither does one
/// that is not playing.
pub proof fn law_muted_client_sends_nothing(v: VoiceState, session: Session, target: Target)
    requires
        v.muted || !(session is Playing),
    ensures
        capture_step(v, session, target) is Idle,
{
}

impl VoiceState {
    /// The mute key. Unmuting starts capture; muting stops it at once.
    pub fn voice_mute_toggle(&mut self, pressed: bool) -> (step: MicStep)
        ensures
            !pressed ==> *final(self) == *old(self) && step is Idle,
            pressed && old(self).muted ==> *final(self) == (VoiceState {
                muted: false,
                ..*old(self)
            }) && step is Start,
            pressed && !old(self).muted ==> *final(self) == (VoiceState {
                muted: true,
                self_live: false,
                ..*old(self)
            }) && step is Disable,
    {
        if !pressed {
            return MicStep::Idle;
        }
        if self.muted {
            self.muted = false;
            MicStep::Start
        } else {
            self.muted = true;
            self.self_live = false;
            MicStep::Disable
        }
    }

    /// Capture was started for an unmute. A browser that refused the microphone
    /// mutes again.
    pub fn unmute_started(&mut self, target: Target, ready: bool, denied: bool) -> (step: MicStep)
        ensures
            ({
                let refused = target is Wasm && denied;
                &&& *final(self) == (VoiceState {
                    mic_ready: ready,
                    mic_denied: old(self).mic_denied || refused,
                    muted: old(self).muted || refused,
                    ..*old(self)
                })
                &&& step == (if refused {
                    MicStep::Disable
                } else {
                    MicStep::Idle
                })
            }),
    {
        self.mic_ready = ready;
        if matches!(target, Target::Wasm) && denied {
            self.mic_denied = true;
            self.muted = true;
            return MicStep::Disable;
        }
        MicStep::Idle
    }

    /// One frame of capture. Nothing is sent outside play or while muted. In a
    /// browser the permission is followed up: while muted by the page's flags,
    /// while unmuted by starting again.
    pub fn voice_capture_send(
        &mut self,
        session: Session,
        target: Target,
        page_ready: bool,
        page_denied: bool,
    ) -> (step: MicStep)
        ensures
            ({
                let v = *old(self);
                &&& step == capture_step(v, session, target)
                &&& *final(self) == (if !(session is Playing) {
                    VoiceState { self_live: false, ..v }
                } else if v.muted && target is Wasm {
                    VoiceState {
                        self_live: false,
                        mic_ready: page_ready,
                        mic_denied: v.mic_denied || page_denied,
                        ..v
                    }
                } else if v.muted {
                    VoiceState { self_live: false, ..v }
                } else {
                    v
                })
            }),
    {
        if !matches!(session, Session::Playing { .. }) {
            self.self_live = false;
            return MicStep::Idle;
        }
        if self.muted {
            self.self_live = false;
            if matches!(target, Target::Wasm) {
                self.mic_ready = page_ready;
                if page_denied {
                    self.mic_denied = true;
                }
            }
            return MicStep::Idle;
        }
        match target {
            Target::Wasm => MicStep::Start,
            Target::Native => MicStep::Drain { enable: false },
        }
    }

    /// A browser's capture was started again while unmuted. A refusal mutes.
    pub fn capture_started(&mut self, ready: bool, denied: bool) -> (step: MicStep)
        ensures
            *final(self) == (VoiceState {
                mic_ready: ready,
                mic_denied: old(self).mic_denied || denied,
                muted: old(self).muted || denied,
                self_live: old(self).self_live && !denied,
            }),
            step == (if denied {
                MicStep::Disable
            } else {
                MicStep::Drain { enable: ready }
            }),
    {
        self.mic_ready = ready;
        if denied {
            self.mic_denied = true;
            self.muted = true;
            self.self_live = false;
            return MicStep::Disable;
        }
        MicStep::Drain { enable: ready }
    }

    /// The captured frames were handed over for sending.
    pub fn frames_drained(&mut self, count: usize)
        ensures
            *final(self) == (VoiceState { self_live: count > 0, ..*old(self) }),
    {
        self.self_live = count > 0;
    }
}

// ---- playback -------------------------------------------------------------

/// Bit pattern of 10.0: up to here, in metres, a voice is at full volume.
pub const FADE_START_BITS: u32 = 0x4120_0000;

/// Bit pattern of 1.0: how long, in seconds, a speaker is quiet before being
/// forgotten.
pub const QUIET_BITS: u32 = 0x3f80_0000;

/// Bit pattern of 0.01: quieter frames are not played.
pub const GAIN_FLOOR_BITS: u32 = 0x3c23_d70a;

/// How a speaker's distance tells on the volume.
#[derive(Clone, Copy, Debug, PartialEq, Eq, Structural)]
pub enum GainZone {
    Silent,
    Full,
    /// Falling in a straight line from full volume to silence.
    Fading,
}

/// The zone of a distance: nothing is heard from `radius` on, nor from a
/// distance that is no distance.
pub open spec fn zone_of(dist: F32, radius: F32) -> GainZone {
    let zero = F32 { bits: 0 };
    let endless = F32 { bits: 0x7f80_0000 };
    if dist.nan() || endless.at_most(dist) || dist.below(zero) {
        GainZone::Silent
    } else if radius.at_most(dist) {
        GainZone::Silent
    } else if dist.at_most(F32 { bits: FADE_START_BITS }) {
        GainZone::Full
    } else {
        GainZone::Fading
    }
}

/// How a speaker's distance tells on the volume.
pub fn gain_zone(dist: F32, radius: F32) -> (r: GainZone)
    ensures
        r == zone_of(dist, radius),
{
    if dist.is_nan() || F32::from_bits(0x7f80_0000).le(dist) || dist.lt(F32::from_bits(0)) {
        GainZone::Silent
    } else if radius.le(dist) {
        GainZone::Silent
    } else if dist.le(F32::from_bits(FADE_START_BITS)) {
        GainZone::Full
    } else {
        GainZone::Fading
    }
}

/// Nobody at or beyond the radius is heard, and everybody within ten metres of
/// a listener who hears farther than that is heard in full.
pub proof fn law_voices_carry_to_the_radius(dist: F32, radius: F32)
    requires
        !dist.nan(),
        !radius.nan(),
        (F32 { bits: FADE_START_BITS }).below(radius),
    ensures
        radius.at_most(dist) ==> zone_of(dist, radius) is Silent,
        dist.rank() >= 0 && dist.at_most(F32 { bits: FADE_START_BITS }) ==> zone_of(dist, radius)
            is Full,
        zone_of(dist, radius) is Fading ==> (F32 { bits: FADE_START_BITS }).below(dist)
            && dist.below(radius),
{
}

/// How loud a zone is beside the others.
pub open spec fn loudness(zone: GainZone) -> int {
    match zone {
        GainZone::Silent => 0,
        GainZone::Fading => 1,
        GainZone::Full => 2,
    }
}

/// The farther a speaker, the quieter: going away a voice is heard in full, then
/// fading, then not at all, and never louder again.
pub proof fn law_zones_fall_with_distance(near: F32, far: F32, radius: F32)
    requires
        (F32 { bits: 0 }).at_most(near),
        near.at_most(far),
    ensures
        loudness(zone_of(far, radius)) <= loudness(zone_of(near, radius)),
{
}

/// Whether a frame at this volume is worth playing.
pub fn is_heard(gain: F32) -> (r: bool)
    ensures
        r == !gain.below((F32 { bits: GAIN_FLOOR_BITS })),
{
    !gain.lt(F32::from_bits(GAIN_FLOOR_BITS))
}

/// What is known of a speaker.
#[verifier::ext_equal]
pub struct SpeakerView {
    pub jitter: JitterView,
    /// Number the next received frame gets.
    pub recv_seq: u64,
}

/// A speaker not heard before.
pub open spec fn fresh_speaker() -> SpeakerView {
    SpeakerView { jitter: fresh_jitter(), recv_seq: 0 }
}

/// One speaker's playout.
#[derive(Debug)]
pub struct SpeakerPlay {
    pub jitter: JitterBuffer,
    pub recv_seq: u64,
}

impl View for SpeakerPlay {
    type V = SpeakerView;

    open spec fn view(&self) -> SpeakerView {
        SpeakerView { jitter: self.jitter@, recv_seq: self.recv_seq }
    }
}

/// Everyone heard recently, by slot.
#[derive(Debug)]
pub struct Speakers {
    pub by_slot: BTreeMap<u8, SpeakerPlay>,
}

impl View for Speakers {
    type V = Map<u8, SpeakerView>;

    open spec fn view(&self) -> Map<u8, SpeakerView> {
        self.by_slot@.map_values(|s: SpeakerPlay| s@)
    }
}

/// Every speaker's buffer is well formed.
pub open spec fn speakers_wf(m: Map<u8, SpeakerView>) -> bool {
    forall|s: u8| #[trigger] m.contains_key(s) ==> m[s].jitter.wf()
}

/// The packet is to be played: it is not our own, and holds samples.
pub open spec fn audible(my_slot: u8, packet: (u8, Vec<u8>)) -> bool {
    packet.0 != my_slot && decoded(packet.1@).len() > 0
}

/// The speakers after one packet.
pub open spec fn heard(m: Map<u8, SpeakerView>, my_slot: u8, packet: (u8, Vec<u8>)) -> Map<
    u8,
    SpeakerView,
> {
    if audible(my_slot, packet) {
        let sp = if m.contains_key(packet.0) {
            m[packet.0]
        } else {
            fresh_speaker()
        };
        m.insert(
            packet.0,
            SpeakerView {
                jitter: pushed(sp.jitter, sp.recv_seq, decoded(packet.1@)),
                recv_seq: next_after(sp.recv_seq),
            },
        )
    } else {
        m
    }
}

/// The speakers after the first `n` packets.
pub open spec fn heard_all(
    m: Map<u8, SpeakerView>,
    my_slot: u8,
    rx: Seq<(u8, Vec<u8>)>,
    n: int,
) -> Map<u8, SpeakerView>
    decreases n,
{
    if n <= 0 {
        m
    } else {
        heard(heard_all(m, my_slot, rx, n - 1), my_slot, rx[n - 1])
    }
}

/// Whose packets among the first `n` are played, in order.
pub open spec fn talking(my_slot: u8, rx: Seq<(u8, Vec<u8>)>, n: int) -> Seq<u8>
    decreases n,
{
    if n <= 0 {
        Seq::empty()
    } else if audible(my_slot, rx[n - 1]) {
        talking(my_slot, rx, n - 1).push(rx[n - 1].0)
    } else {
        talking(my_slot, rx, n - 1)
    }
}

impl Speakers {
    pub fn new() -> (r: Self)
        ensures
            r@ == Map::<u8, SpeakerView>::empty(),
            speakers_wf(r@),
    {
        let r = Speakers { by_slot: BTreeMap::new() };
        assert(r@ =~= Map::empty());
        r
    }

    fn ingest_one(&mut self, my_slot: u8, slot: u8, pcm: Vec<u8>) -> (played: bool)
        requires
            speakers_wf(old(self)@),
        ensures
            speakers_wf(final(self)@),
            final(self)@ == heard(old(self)@, my_slot, (slot, pcm)),
            played == audible(my_slot, (slot, pcm)),
    {
        let ghost m = self@;
        if slot == my_slot {
            return false;
        }
        let samples: Vec<i16> = pcm_bytes_to_i16(pcm.as_slice());
        if samples.len() == 0 {
            return false;
        }
        let mut sp = match self.by_slot.remove(&slot) {
            Some(sp) => sp,
            None => SpeakerPlay { jitter: JitterBuffer::with_defaults(), recv_seq: 0 },
        };
        assert(m.contains_key(slot) ==> sp@ == m[slot]);
        assert(!m.contains_key(slot) ==> sp@ == fresh_speaker());
        let seq: u64 = sp.recv_seq;
        sp.recv_seq = sp.recv_seq.saturating_add(1);
        sp.jitter.push(seq, samples);
        self.by_slot.insert(slot, sp);
        assert(self@ =~= heard(m, my_slot, (slot, pcm)));
        true
    }

    /// Takes every waiting packet. The result lists whose packets are played, in
    /// order of arrival.
    pub fn ingest(&mut self, rx: VecDeque<(u8, Vec<u8>)>, my_slot: u8) -> (spoke: Vec<u8>)
        requires
            speakers_wf(old(self)@),
        ensures
            speakers_wf(final(self)@),
            final(self)@ == heard_all(old(self)@, my_slot, rx@, rx@.len() as int),
            spoke@ == talking(my_slot, rx@, rx@.len() as int),
    {
        let ghost m = self@;
        let ghost q = rx@;
        let mut rx = rx;
        let mut spoke: Vec<u8> = Vec::new();
        let ghost mut n: int = 0;
        assert(q.skip(0) =~= q);
        while rx.len() > 0
            invariant
                0 <= n <= q.len(),
                rx@ == q.skip(n),
                speakers_wf(self@),
                self@ == heard_all(m, my_slot, q, n),
                spoke@ == talking(my_slot, q, n),
            decreases rx@.len(),
        {
            match rx.pop_front() {
                Some(packet) => {
                    assert(packet == q[n]);
                    let slot: u8 = packet.0;
                    let played: bool = self.ingest_one(my_slot, slot, packet.1);
                    if played {
                        spoke.push(slot);
                    }
                    proof {
                        n = n + 1;
                        assert(rx@ =~= q.skip(n));
                    }
                },
                None => {},
            }
        }
        spoke
    }

    /// One playout tick of one speaker: the frame due now, or silence.
    pub fn next_frame(&mut self, slot: u8) -> (r: Option<Vec<i16>>)
        requires
            speakers_wf(old(self)@),
        ensures
            speakers_wf(final(self)@),
            final(self)@ == (if old(self)@.contains_key(slot) {
                old(self)@.insert(
                    slot,
                    SpeakerView {
                        jitter: popped(old(self)@[slot].jitter),
                        ..old(self)@[slot]
                    },
                )
            } else {
                old(self)@
            }),
            match (if old(self)@.contains_key(slot) {
                due_frame(old(self)@[slot].jitter)
            } else {
                None
            }) {
                Some(frame) => r is Some && r->0@ == frame,
                None => r is None,
            },
    {
        let ghost m = self@;
        match self.by_slot.remove(&slot) {
            Some(sp) => {
                let mut sp = sp;
                assert(sp@ == m[slot]);
                let frame = sp.jitter.pop();
                self.by_slot.insert(slot, sp);
                assert(self@ =~= m.insert(
                    slot,
                    SpeakerView { jitter: popped(m[slot].jitter), ..m[slot] },
                ));
                frame
            },
            None => {
                assert(self@ =~= m);
                None
            },
        }
    }

    /// Forgets a speaker who has been quiet for more than a second and has
    /// nothing left to play. The result says whether that happened.
    pub fn retire(&mut self, slot: u8, quiet: F32) -> (gone: bool)
        requires
            speakers_wf(old(self)@),
        ensures
            speakers_wf(final(self)@),
            gone == ((F32 { bits: QUIET_BITS }).below(quiet) && old(self)@.contains_key(slot) && old(self)@[slot].jitter.frames
                == Map::<u64, Seq<i16>>::empty()),
            final(self)@ == (if gone {
                old(self)@.remove(slot)
            } else {
                old(self)@
            }),
    {
        let ghost m = self@;
        if !F32::from_bits(QUIET_BITS).lt(quiet) {
            return false;
        }
        match self.by_slot.remove(&slot) {
            Some(sp) => {
                assert(sp@ == m[slot]);
                if sp.jitter.is_empty() {
                    assert(self@ =~= m.remove(slot));
                    true
                } else {
                    self.by_slot.insert(slot, sp);
                    assert(self@ =~= m);
                    false
                }
            },
            None => {
                assert(self@ =~= m);
                false
            },
        }
    }

    pub fn clear(&mut self)
        ensures
            final(self)@ == Map::<u8, SpeakerView>::empty(),
            speakers_wf(final(self)@),
    {
        self.by_slot.clear();
        assert(self@ =~= Map::empty());
    }
}

/// We never hear ourselves: whatever arrives, our own slot gains no speaker.
pub proof fn law_own_voice_is_never_played(
    m: Map<u8, SpeakerView>,
    my_slot: u8,
    rx: Seq<(u8, Vec<u8>)>,
    n: int,
)
    requires
        0 <= n <= rx.len(),
    ensures
        heard_all(m, my_slot, rx, n).contains_key(my_slot) == m.contains_key(my_slot),
        !talking(my_slot, rx, n).contains(my_slot),
    decreases n,
{
    if n > 0 {
        law_own_voice_is_never_played(m, my_slot, rx, n - 1);
        let before = talking(my_slot, rx, n - 1);
        let after = talking(my_slot, rx, n);
        if after.contains(my_slot) {
            let k = choose|k: int| 0 <= k < after.len() && after[k] == my_slot;
            if k < before.len() {
                assert(before[k] == my_slot);
            }
        }
    }
}

/// Leaving the match stops sending, forgets every speaker and every waiting
/// packet, and mutes again. The result asks for capture to be turned off.
pub fn voice_on_session_change(
    session: Session,
    changed: bool,
    state: &mut VoiceState,
    speakers: &mut Speakers,
    rx: &mut VecDeque<(u8, Vec<u8>)>,
) -> (disable: bool)
    ensures
        disable == (changed && session.slot() is None),
        disable ==> *final(state) == (VoiceState { muted: true, self_live: false, ..*old(state) }),
        disable ==> final(speakers)@ == Map::<u8, SpeakerView>::empty(),
        disable ==> final(rx)@ == Seq::<(u8, Vec<u8>)>::empty(),
        !disable ==> *final(state) == *old(state),
        !disable ==> *final(speakers) == *old(speakers),
        !disable ==> *final(rx) == *old(rx),
{
    if !changed || crate::game::in_match(session) {
        return false;
    }
    state.self_live = false;
    state.muted = true;
    speakers.clear();
    rx.clear();
    true
}

/// Samples travel with the low byte first, in two's complement.
pub proof fn law_samples_travel_low_byte_first(lo: u8, hi: u8, samples: Seq<i16>, i: int)
    requires
        0 <= i < samples.len(),
    ensures
        hi < 128 ==> le_sample(lo, hi) == lo + 256 * hi,
        hi >= 128 ==> le_sample(lo, hi) == lo + 256 * hi - 65536,
        ({
            let b = encoded(samples);
            let u = b[2 * i] + 256 * b[2 * i + 1];
            samples[i] == u || samples[i] == u - 65536
        }),
{
    let s = samples[i];
    assert((2 * i) % 2 == 0 && (2 * i) / 2 == i);
    assert((2 * i + 1) % 2 == 1 && (2 * i + 1) / 2 == i);
    let q = s as int / 256;
    assert(s as int == 256 * q + s as int % 256);
    assert(-128 <= q <= 127);
}

/// Sample `i` of a packet is in its bytes `2 i` and `2 i + 1`; a last odd byte is
/// none.
pub proof fn law_packets_decode_in_order(pcm: Seq<u8>, i: int)
    requires
        0 <= i < decoded(pcm).len(),
    ensures
        2 * decoded(pcm).len() == pcm.len() || 2 * decoded(pcm).len() + 1 == pcm.len(),
        decoded(pcm)[i] == pcm[2 * i] + 256 * pcm[2 * i + 1] || decoded(pcm)[i] == pcm[2 * i] + 256
            * pcm[2 * i + 1] - 65536,
{
}

/// A frame is ignored exactly if it is empty, comes after its turn has passed, or
/// is there already.
pub proof fn law_only_late_or_known_frames_are_ignored(v: JitterView, seq: u64, samples: Seq<i16>)
    ensures
        v.ignores(seq, samples) <==> (samples.len() == 0 || v.frames.contains_key(seq) || (v.started
            && seq < v.next_seq)),
        v.ignores(seq, samples) ==> pushed(v, seq, samples) == v,
{
}

/// While there is room a frame waits under its own number, as it came, and the
/// others go on waiting.
pub proof fn law_frames_wait_under_their_number(
    v: JitterView,
    seq: u64,
    samples: Seq<i16>,
    other: u64,
)
    requires
        v.wf(),
        v.frames.len() < v.capacity,
        samples.len() > 0,
        !v.frames.contains_key(seq),
        !v.started || seq >= v.next_seq,
    ensures
        ({
            let after = pushed(v, seq, samples);
            &&& after.frames.contains_key(seq)
            &&& after.frames[seq] == samples
            &&& other != seq ==> (after.frames.contains_key(other) <==> v.frames.contains_key(other))
            &&& other != seq && v.frames.contains_key(other) ==> after.frames[other]
                == v.frames[other]
            &&& after.next_seq == v.next_seq
            &&& after.started == v.started
            &&& after.capacity == v.capacity
            &&& after.start_threshold == v.start_threshold
        }),
{
    let more = v.frames.insert(seq, samples);
    assert(more.dom() =~= v.frames.dom().insert(seq));
}

/// A tick plays the frame whose turn it is and moves on by one; a frame that is
/// not there leaves everything waiting.
pub proof fn law_a_tick_plays_the_frame_whose_turn_it_is(v: JitterView, other: u64)
    requires
        v.wf(),
        v.started,
        v.next_seq < u64::MAX,
    ensures
        due_frame(v) is Some <==> v.frames.contains_key(v.next_seq),
        due_frame(v) is Some ==> due_frame(v)->0 == v.frames[v.next_seq],
        due_frame(v) is Some ==> popped(v).next_seq == v.next_seq + 1 && !popped(
            v,
        ).frames.contains_key(v.next_seq),
        due_frame(v) is Some && other != v.next_seq && v.frames.contains_key(other) ==> popped(
            v,
        ).frames.contains_key(other) && popped(v).frames[other] == v.frames[other],
        due_frame(v) is None ==> popped(v) == v,
        popped(v).started,
{
}

/// A speaker not heard before has nothing waiting, numbers from zero, and waits
/// for two frames before playing; it keeps four at most.
pub proof fn law_speakers_start_empty()
    ensures
        fresh_speaker().recv_seq == 0,
        fresh_speaker().jitter.frames == Map::<u64, Seq<i16>>::empty(),
        !fresh_speaker().jitter.started,
        fresh_speaker().jitter.start_threshold == 2,
        fresh_speaker().jitter.capacity == 4,
        fresh_speaker().jitter.wf(),
{
}

/// A packet of somebody else that holds a sample goes to that speaker, behind what
/// they sent before; nobody else's playout changes. Our own packets and empty ones
/// change nothing.
pub proof fn law_packets_reach_their_speaker(
    m: Map<u8, SpeakerView>,
    my_slot: u8,
    packet: (u8, Vec<u8>),
    other: u8,
)
    ensures
        ({
            let after = heard(m, my_slot, packet);
            let plays = packet.0 != my_slot && packet.1@.len() >= 2;
            let sp = if m.contains_key(packet.0) {
                m[packet.0]
            } else {
                fresh_speaker()
            };
            &&& audible(my_slot, packet) <==> plays
            &&& !plays ==> after == m
            &&& plays ==> after.contains_key(packet.0) && after[packet.0].jitter == pushed(
                sp.jitter,
                sp.recv_seq,
                decoded(packet.1@),
            )
            &&& plays && sp.recv_seq < u64::MAX ==> after[packet.0].recv_seq == sp.recv_seq + 1
            &&& other != packet.0 ==> (after.contains_key(other) <==> m.contains_key(other))
            &&& other != packet.0 && m.contains_key(other) ==> after[other] == m[other]
        }),
{
}

/// Who is talking is told in order of arrival: one entry for every packet of
/// somebody else that holds a sample.
pub proof fn law_talkers_are_told_in_order(my_slot: u8, rx: Seq<(u8, Vec<u8>)>, n: int)
    requires
        0 <= n <= rx.len(),
    ensures
        talking(my_slot, rx, n) == rx.take(n).filter(
            |p: (u8, Vec<u8>)| p.0 != my_slot && p.1@.len() >= 2,
        ).map_values(|p: (u8, Vec<u8>)| p.0),
    decreases n,
{
    let plays = |p: (u8, Vec<u8>)| p.0 != my_slot && p.1@.len() >= 2;
    let slot = |p: (u8, Vec<u8>)| p.0;
    reveal(Seq::filter);
    if n > 0 {
        law_talkers_are_told_in_order(my_slot, rx, n - 1);
        assert(rx.take(n).drop_last() =~= rx.take(n - 1));
        assert(rx.take(n).last() == rx[n - 1]);
        let before = rx.take(n - 1).filter(plays);
        assert(before.push(rx[n - 1]).map_values(slot) =~= before.map_values(slot).push(
            rx[n - 1].0,
        ));
    } else {
        assert(rx.take(0).filter(plays).map_values(slot) =~= Seq::<u8>::empty());
    }
}

/// An unmuted client in play sends: natively what was captured, in a page once the
/// permission was followed up.
pub proof fn law_unmuted_client_sends(v: VoiceState, session: Session, target: Target)
    requires
        !v.muted,
        session is Playing,
    ensures
        target is Native ==> capture_step(v, session, target) == (MicStep::Drain { enable: false }),
        target is Wasm ==> capture_step(v, session, target) is Start,
{
}

/// Chunks are joined in order, with nothing lost between them.
pub proof fn law_chunks_join_in_order(chunks: Seq<Vec<i16>>, n: int, m: int)
    requires
        0 <= n <= m <= chunks.len(),
    ensures
        joined(chunks, m) == joined(chunks, n) + joined(chunks.skip(n), m - n),
        n < chunks.len() ==> joined(chunks.skip(n), 1) == chunks[n]@,
    decreases m - n,
{
    if n < m {
        law_chunks_join_in_order(chunks, n, m - 1);
        assert(chunks.skip(n)[m - n - 1] == chunks[m - 1]);
    }
    assert(joined(chunks, m) =~= joined(chunks, n) + joined(chunks.skip(n), m - n));
    if n < chunks.len() {
        reveal_with_fuel(joined, 2);
        assert(chunks.skip(n)[0] == chunks[n]);
        assert(joined(chunks.skip(n), 1) =~= chunks[n]@);
    }
}

/// Within hearing a voice is full up to ten metres and fades beyond; from the
/// radius on, and at no real distance, nothing is heard.
pub proof fn law_zones_are_where_they_should_be(dist: F32, radius: F32)
    requires
        !dist.nan(),
        !radius.nan(),
    ensures
        zone_of(dist, radius) is Full <==> 0 <= dist.rank() <= FADE_START_BITS && dist.rank()
            < radius.rank() && dist.rank() < 0x7f80_0000,
        zone_of(dist, radius) is Fading <==> FADE_START_BITS < dist.rank() < radius.rank()
            && dist.rank() < 0x7f80_0000,
{
}

/// A fresh buffer holds nothing, has not begun, counts from the first number on, and
/// has room for more than it takes to begin.
pub proof fn law_fresh_buffers_count_from_the_start(seq: u64)
    ensures
        fresh_jitter().wf(),
        !fresh_jitter().frames.dom().contains(seq),
        fresh_jitter().next_seq <= seq,
        !fresh_jitter().started,
        0 < fresh_jitter().start_threshold < fresh_jitter().capacity,
{
}

/// The frames of some samples hold them in order: as many as the samples fill, but
/// for those left out at the front, each of full length and each sample in its place.
pub proof fn law_frames_hold_every_sample(
    frames: Seq<Vec<u8>>,
    samples: Seq<i16>,
    from: int,
    k: int,
    at: int,
)
    requires
        are_frames(frames, samples, from),
        0 <= from,
        0 <= k < frames.len(),
        0 <= at < FRAME_SAMPLES,
    ensures
        (frames.len() + from) * FRAME_SAMPLES <= samples.len(),
        samples.len() < (frames.len() + from + 1) * FRAME_SAMPLES,
        frames[k]@.len() == 2 * FRAME_SAMPLES,
        decoded(frames[k]@)[at] == samples[(k + from) * FRAME_SAMPLES + at],
{
    law_framing_loses_nothing(samples, k + from, at);
}

} // verus!
