//! Client-side prediction bookkeeping: which inputs were sent, which the server
//! acknowledged, and which must be replayed on top of its truth.

use std::collections::VecDeque;
use vstd::prelude::*;
use crate::scalar::F32;
use crate::touch::TouchIntent;
use crate::wire::PlayerInput;

verus! {

/// Most unacknowledged inputs kept for replay.
pub const PENDING_CAP: usize = 64;

/// Bit pattern of 2.0: longest correction that is smoothed out, in metres.
pub const ERROR_CLAMP_BITS: u32 = 0x4000_0000;

/// What the keyboard holds.
#[derive(Clone, Copy, Debug, PartialEq, Eq, Structural)]
pub struct KeyState {
    pub w: bool,
    pub arrow_up: bool,
    pub s: bool,
    pub arrow_down: bool,
    pub a: bool,
    pub arrow_left: bool,
    pub d: bool,
    pub arrow_right: bool,
    pub space: bool,
    pub g: bool,
    pub e: bool,
}

/// What the player wants this tick, whatever device said so.
#[derive(Clone, Copy, Debug, PartialEq, Eq, Structural)]
pub struct Controls {
    pub forward: bool,
    pub backward: bool,
    pub left: bool,
    pub right: bool,
    pub jump: bool,
    pub fire: bool,
    pub grenade: bool,
    pub interact: bool,
}

/// Keyboard, mouse, the page's own space bar and the touch controls, merged. The
/// mouse fires only while captured and outside touch mode.
pub open spec fn merged_controls(
    keys: KeyState,
    touch: TouchIntent,
    locked: bool,
    left_button: bool,
    page_space: bool,
) -> Controls {
    Controls {
        forward: keys.w || keys.arrow_up || touch.forward,
        backward: keys.s || keys.arrow_down || touch.backward,
        left: keys.a || keys.arrow_left || touch.left,
        right: keys.d || keys.arrow_right || touch.right,
        jump: keys.space || page_space || touch.jump,
        fire: (locked && left_button && !touch.enabled) || touch.fire,
        grenade: keys.g || touch.grenade,
        interact: keys.e,
    }
}

pub fn merge_controls(
    keys: &KeyState,
    touch: &TouchIntent,
    locked: bool,
    left_button: bool,
    page_space: bool,
) -> (r: Controls)
    ensures
        r.forward <==> keys.w || keys.arrow_up || touch.forward,
        r.backward <==> keys.s || keys.arrow_down || touch.backward,
        r.left <==> keys.a || keys.arrow_left || touch.left,
        r.right <==> keys.d || keys.arrow_right || touch.right,
        r.jump <==> keys.space || page_space || touch.jump,
        r.fire <==> touch.fire || (left_button && locked && !touch.enabled),
        r.grenade <==> keys.g || touch.grenade,
        r.interact <==> keys.e,
        r == merged_controls(*keys, *touch, locked, left_button, page_space),
{
    Controls {
        forward: keys.w || keys.arrow_up || touch.forward,
        backward: keys.s || keys.arrow_down || touch.backward,
        left: keys.a || keys.arrow_left || touch.left,
        right: keys.d || keys.arrow_right || touch.right,
        jump: keys.space || page_space || touch.jump,
        fire: (locked && left_button && !touch.enabled) || touch.fire,
        grenade: keys.g || touch.grenade,
        interact: keys.e,
    }
}

/// The input sample numbered `seq`.
pub open spec fn input_with(seq: u32, c: Controls, yaw: F32, pitch: F32) -> PlayerInput {
    PlayerInput {
        seq,
        forward: c.forward,
        backward: c.backward,
        left: c.left,
        right: c.right,
        jump: c.jump,
        fire: c.fire,
        grenade: c.grenade,
        interact: c.interact,
        yaw,
        pitch,
    }
}

/// The input says of every control what the player wants, and where they look.
pub open spec fn carries(input: PlayerInput, c: Controls, yaw: F32, pitch: F32) -> bool {
    &&& input.forward == c.forward
    &&& input.backward == c.backward
    &&& input.left == c.left
    &&& input.right == c.right
    &&& input.jump == c.jump
    &&& input.fire == c.fire
    &&& input.grenade == c.grenade
    &&& input.interact == c.interact
    &&& input.yaw == yaw
    &&& input.pitch == pitch
}

/// The newest `cap` entries of a queue.
pub open spec fn newest<A>(s: Seq<A>, cap: int) -> Seq<A> {
    if s.len() > cap {
        s.skip(s.len() - cap)
    } else {
        s
    }
}

/// A queue without its leading acknowledged inputs.
pub open spec fn unacked(pending: Seq<PlayerInput>, acked: u32) -> Seq<PlayerInput>
    decreases pending.len(),
{
    if pending.len() > 0 && pending[0].seq <= acked {
        unacked(pending.skip(1), acked)
    } else {
        pending
    }
}

/// What prediction remembers.
#[verifier::ext_equal]
pub struct PredictedView {
    /// Sent and not yet acknowledged, oldest first.
    pub pending: Seq<PlayerInput>,
    pub next_seq: u32,
    /// The body was seeded from the server.
    pub synced: bool,
    /// Corrections that hit the length clamp this match.
    pub clamp_hits: u32,
}

impl PredictedView {
    /// Bounded; numbers strictly increase and are below the next one.
    pub open spec fn wf(self) -> bool {
        &&& self.pending.len() <= PENDING_CAP
        &&& forall|i: int, j: int|
            0 <= i < j < self.pending.len() ==> (#[trigger] self.pending[i]).seq < (
            #[trigger] self.pending[j]).seq
        &&& forall|i: int|
            0 <= i < self.pending.len() ==> (#[trigger] self.pending[i]).seq < self.next_seq
    }
}

/// Prediction at the start of a match.
pub open spec fn fresh_prediction() -> PredictedView {
    PredictedView { pending: Seq::empty(), next_seq: 1, synced: false, clamp_hits: 0 }
}

/// Prediction after the server's word on this player arrived.
pub open spec fn adopted(v: PredictedView, acked: u32) -> PredictedView {
    PredictedView { pending: unacked(v.pending, acked), synced: true, ..v }
}

/// How a snapshot's own sample is to be applied.
#[derive(Debug, PartialEq, Eq)]
pub struct Reconcile {
    /// The first sample seeds body and aim outright.
    pub first: bool,
    /// Inputs to replay on top of the server's position, in order.
    pub replay: Vec<PlayerInput>,
}

/// Client-side prediction of the own player.
#[derive(Debug)]
pub struct Predicted {
    pending: VecDeque<PlayerInput>,
    next_seq: u32,
    synced: bool,
    clamp_hits: u32,
}

impl View for Predicted {
    type V = PredictedView;

    closed spec fn view(&self) -> PredictedView {
        PredictedView {
            pending: self.pending@,
            next_seq: self.next_seq,
            synced: self.synced,
            clamp_hits: self.clamp_hits,
        }
    }
}

impl Default for Predicted {
    fn default() -> (r: Self)
        ensures
            r@ == fresh_prediction(),
            r@.wf(),
    {
        let r = Predicted { pending: VecDeque::new(), next_seq: 1, synced: false, clamp_hits: 0 };
        assert(r@ =~= fresh_prediction());
        r
    }
}

impl Predicted {
    /// The first authoritative sample has seeded prediction.
    pub fn is_synced(&self) -> (r: bool)
        ensures
            r == self@.synced,
    {
        self.synced
    }

    /// Inputs still waiting for an acknowledgement.
    pub fn pending_len(&self) -> (r: usize)
        ensures
            r == self@.pending.len(),
    {
        self.pending.len()
    }

    /// Takes the server's acknowledgement: acknowledged inputs leave the queue,
    /// the rest is to be replayed, and prediction counts as seeded.
    pub fn adopt(&mut self, acked: u32) -> (r: Reconcile)
        requires
            old(self)@.wf(),
        ensures
            final(self)@ == adopted(old(self)@, acked),
            final(self)@.wf(),
            r.first == !old(self)@.synced,
            r.replay@ == unacked(old(self)@.pending, acked),
            r.replay@ == final(self)@.pending,
            forall|k: int|
                0 <= k < old(self)@.pending.len() ==> (r.replay@.contains(
                    #[trigger] old(self)@.pending[k],
                ) <==> old(self)@.pending[k].seq > acked),
            forall|k: int|
                0 <= k < r.replay@.len() ==> old(self)@.pending.contains(#[trigger] r.replay@[k]),
            final(self)@.synced,
            final(self)@.next_seq == old(self)@.next_seq,
            final(self)@.clamp_hits == old(self)@.clamp_hits,
    {
        let ghost v0 = self@;
        let ghost q = self.pending@;
        let first: bool = !self.synced;
        while self.pending.len() > 0 && self.pending[0].seq <= acked
            invariant
                unacked(q, acked) == unacked(self.pending@, acked),
                self.next_seq == v0.next_seq,
                self.clamp_hits == v0.clamp_hits,
                self@.wf(),
            decreases self.pending@.len(),
        {
            let ghost before = self.pending@;
            self.pending.pop_front();
            assert(self.pending@ =~= before.skip(1));
            assert(self@.pending =~= self.pending@);
        }
        let mut replay: Vec<PlayerInput> = Vec::new();
        for i in 0..self.pending.len()
            invariant
                replay@ == self.pending@.take(i as int),
        {
            replay.push(self.pending[i]);
            assert(replay@ =~= self.pending@.take(i + 1));
        }
        assert(self.pending@.take(self.pending@.len() as int) =~= self.pending@);
        self.synced = true;
        proof {
            assert forall|k: int| 0 <= k < q.len() implies (replay@.contains(#[trigger] q[k])
                <==> q[k].seq > acked) by {
                law_ack_leaves_exactly_later_inputs(v0, acked, k);
            }
            if q.len() > 0 {
                law_ack_leaves_exactly_later_inputs(v0, acked, 0);
                let k = choose|k: int| 0 <= k <= q.len() && replay@ == #[trigger] q.skip(k);
                assert forall|j: int| 0 <= j < replay@.len() implies q.contains(
                    #[trigger] replay@[j],
                ) by {
                    assert(replay@[j] == q[j + k]);
                }
            }
        }
        Reconcile { first, replay }
    }

    /// Counts a correction that is longer than the clamp. The result says
    /// whether to log it: on the first such correction, and then on every
    /// thirtieth.
    pub fn note_correction(&mut self, len: F32) -> (log: bool)
        ensures
            ({
                let over = (F32 { bits: ERROR_CLAMP_BITS }).below(len);
                let hits = if over && old(self)@.clamp_hits < u32::MAX {
                    (old(self)@.clamp_hits + 1) as u32
                } else {
                    old(self)@.clamp_hits
                };
                &&& final(self)@ == (PredictedView { clamp_hits: hits, ..old(self)@ })
                &&& log == (over && (hits == 1 || hits % 30 == 0))
            }),
    {
        if !F32::from_bits(ERROR_CLAMP_BITS).lt(len) {
            return false;
        }
        self.clamp_hits = self.clamp_hits.saturating_add(1);
        self.clamp_hits == 1 || self.clamp_hits % 30 == 0
    }

    /// How many more inputs can still be numbered.
    pub fn seqs_left(&self) -> (r: u32)
        ensures
            r == u32::MAX - self@.next_seq,
    {
        u32::MAX - self.next_seq
    }

    /// Samples the controls for `ticks` fixed ticks, one numbered input each, to
    /// be sent and predicted in order. Nothing is sampled before prediction is
    /// seeded. The queue keeps the newest inputs.
    pub fn sample_inputs(&mut self, ticks: usize, c: Controls, yaw: F32, pitch: F32) -> (r: Vec<
        PlayerInput,
    >)
        requires
            old(self)@.wf(),
            old(self)@.next_seq + ticks <= u32::MAX,
        ensures
            final(self)@.wf(),
            ({
                let v = old(self)@;
                if v.synced {
                    let inputs = Seq::new(
                        ticks as nat,
                        |i: int| input_with((v.next_seq + i) as u32, c, yaw, pitch),
                    );
                    &&& r@ == inputs
                    &&& final(self)@ == (PredictedView {
                        pending: newest(v.pending + inputs, PENDING_CAP as int),
                        next_seq: (v.next_seq + ticks) as u32,
                        ..v
                    })
                } else {
                    r@ == Seq::<PlayerInput>::empty() && final(self)@ == v
                }
            }),
            r@.len() == (if old(self)@.synced {
                ticks as int
            } else {
                0
            }),
            final(self)@.next_seq == old(self)@.next_seq + r@.len(),
            forall|i: int| 0 <= i < r@.len() ==> (#[trigger] r@[i]).seq == old(self)@.next_seq + i,
            forall|i: int| 0 <= i < r@.len() ==> carries(#[trigger] r@[i], c, yaw, pitch),
    {
        let ghost v = self@;
        let mut out: Vec<PlayerInput> = Vec::new();
        if !self.synced {
            return out;
        }
        let ghost inputs = Seq::new(
            ticks as nat,
            |i: int| input_with((v.next_seq + i) as u32, c, yaw, pitch),
        );
        for i in 0..ticks
            invariant
                v.next_seq + ticks <= u32::MAX,
                inputs == Seq::new(
                    ticks as nat,
                    |i: int| input_with((v.next_seq + i) as u32, c, yaw, pitch),
                ),
                out@ == inputs.take(i as int),
                self@.wf(),
                self@.pending == newest(v.pending + inputs.take(i as int), PENDING_CAP as int),
                self@.next_seq == v.next_seq + i,
                self@.synced == v.synced,
                self@.clamp_hits == v.clamp_hits,
                v.pending.len() <= PENDING_CAP,
        {
            let input = PlayerInput {
                seq: self.next_seq,
                forward: c.forward,
                backward: c.backward,
                left: c.left,
                right: c.right,
                jump: c.jump,
                fire: c.fire,
                grenade: c.grenade,
                interact: c.interact,
                yaw,
                pitch,
            };
            let ghost all0 = v.pending + inputs.take(i as int);
            let ghost all1 = v.pending + inputs.take(i + 1);
            assert(input == inputs[i as int]);
            assert(all1 =~= all0.push(input));
            let ghost before = self.pending@;
            self.next_seq += 1;
            if self.pending.len() >= PENDING_CAP {
                self.pending.pop_front();
                assert(self.pending@ =~= before.skip(1));
            }
            self.pending.push_back(input);
            out.push(input);
            assert(self@.pending =~= newest(all1, PENDING_CAP as int));
            assert(out@ =~= inputs.take(i + 1));
        }
        assert(inputs.take(ticks as int) =~= inputs);
        out
    }
}

/// With increasing numbers, what an acknowledgement leaves is exactly the
/// inputs with a later number, still in order.
pub proof fn law_ack_leaves_exactly_later_inputs(v: PredictedView, acked: u32, i: int)
    requires
        v.wf(),
        0 <= i < v.pending.len(),
    ensures
        unacked(v.pending, acked).contains(v.pending[i]) <==> v.pending[i].seq > acked,
        exists|k: int|
            0 <= k <= v.pending.len() && unacked(v.pending, acked) == #[trigger] v.pending.skip(k),
{
    lemma_unacked(v.pending, acked);
    let k = choose|k: int|
        0 <= k <= v.pending.len() && unacked(v.pending, acked) == #[trigger] v.pending.skip(k)
            && (forall|j: int| 0 <= j < k ==> (#[trigger] v.pending[j]).seq <= acked) && (k
            < v.pending.len() ==> v.pending[k].seq > acked);
    let left = v.pending.skip(k);
    if i >= k {
        assert(left[i - k] == v.pending[i]);
        if i > k {
            assert(v.pending[k].seq < v.pending[i].seq);
        }
    } else if left.contains(v.pending[i]) {
        let j = choose|j: int| 0 <= j < left.len() && left[j] == v.pending[i];
        assert(v.pending[j + k] == v.pending[i]);
        assert(v.pending[i].seq < v.pending[j + k].seq);
    }
}

proof fn lemma_unacked(q: Seq<PlayerInput>, acked: u32)
    ensures
        exists|k: int|
            0 <= k <= q.len() && unacked(q, acked) == #[trigger] q.skip(k) && (forall|j: int|
                0 <= j < k ==> (#[trigger] q[j]).seq <= acked) && (k < q.len() ==> q[k].seq > acked),
    decreases q.len(),
{
    if q.len() > 0 && q[0].seq <= acked {
        let rest = q.skip(1);
        lemma_unacked(rest, acked);
        let k = choose|k: int|
            0 <= k <= rest.len() && unacked(rest, acked) == #[trigger] rest.skip(k) && (forall|
                j: int,
            |
                0 <= j < k ==> (#[trigger] rest[j]).seq <= acked) && (k < rest.len() ==> rest[k].seq
                > acked);
        assert(rest.skip(k) =~= q.skip(k + 1));
        assert forall|j: int| 0 <= j < k + 1 implies (#[trigger] q[j]).seq <= acked by {
            if j > 0 {
                assert(rest[j - 1] == q[j]);
            }
        }
        assert(k + 1 < q.len() ==> q[k + 1].seq > acked);
    } else {
        assert(q.skip(0) =~= q);
    }
}

/// Acknowledging is idempotent, and acknowledging more never brings an input
/// back.
pub proof fn law_acks_are_monotone(v: PredictedView, first: u32, second: u32)
    requires
        v.wf(),
        first <= second,
    ensures
        unacked(unacked(v.pending, first), first) == unacked(v.pending, first),
        unacked(unacked(v.pending, first), second) == unacked(v.pending, second),
{
    lemma_ack_twice(v.pending, first, first);
    lemma_ack_twice(v.pending, first, second);
}

proof fn lemma_ack_twice(q: Seq<PlayerInput>, first: u32, second: u32)
    requires
        first <= second,
    ensures
        unacked(unacked(q, first), second) == unacked(q, second),
    decreases q.len(),
{
    if q.len() > 0 && q[0].seq <= first {
        lemma_ack_twice(q.skip(1), first, second);
    }
}

/// Whether the space bar reaches the engine. Some pages see the key while the
/// engine's window does not.
#[derive(Clone, Copy, Debug, PartialEq, Eq, Structural)]
pub struct SpaceTelemetry {
    pub page_saw: bool,
    pub engine_saw: bool,
    pub warned: bool,
}

impl Default for SpaceTelemetry {
    fn default() -> (r: Self)
        ensures
            r == (SpaceTelemetry { page_saw: false, engine_saw: false, warned: false }),
    {
        SpaceTelemetry { page_saw: false, engine_saw: false, warned: false }
    }
}

impl SpaceTelemetry {
    /// Takes this frame's key states. The result asks for a warning, once per
    /// match: the page saw the key and the engine never did.
    pub fn observe(&mut self, engine_space: bool, page_space: bool) -> (warn: bool)
        ensures
            final(self).engine_saw == (old(self).engine_saw || engine_space),
            final(self).page_saw == (old(self).page_saw || page_space),
            warn == (final(self).page_saw && !final(self).engine_saw && !old(self).warned),
            final(self).warned == (old(self).warned || warn),
    {
        if engine_space {
            self.engine_saw = true;
        }
        if page_space {
            self.page_saw = true;
        }
        let warn: bool = self.page_saw && !self.engine_saw && !self.warned;
        if warn {
            self.warned = true;
        }
        warn
    }
}

/// Pressing a key adds the control it stands for and touches no other: W and the
/// arrow up walk forward, S and the arrow down backward, A and D and the other
/// arrows sideways, the space bar jumps, G throws and E interacts.
pub proof fn law_a_key_adds_its_control(
    keys: KeyState,
    touch: TouchIntent,
    locked: bool,
    left_button: bool,
    page_space: bool,
)
    ensures
        ({
            let now = |k: KeyState| merged_controls(k, touch, locked, left_button, page_space);
            let c = now(keys);
            &&& now(KeyState { w: true, ..keys }) == (Controls { forward: true, ..c })
            &&& now(KeyState { arrow_up: true, ..keys }) == (Controls { forward: true, ..c })
            &&& now(KeyState { s: true, ..keys }) == (Controls { backward: true, ..c })
            &&& now(KeyState { arrow_down: true, ..keys }) == (Controls { backward: true, ..c })
            &&& now(KeyState { a: true, ..keys }) == (Controls { left: true, ..c })
            &&& now(KeyState { arrow_left: true, ..keys }) == (Controls { left: true, ..c })
            &&& now(KeyState { d: true, ..keys }) == (Controls { right: true, ..c })
            &&& now(KeyState { arrow_right: true, ..keys }) == (Controls { right: true, ..c })
            &&& now(KeyState { space: true, ..keys }) == (Controls { jump: true, ..c })
            &&& now(KeyState { g: true, ..keys }) == (Controls { grenade: true, ..c })
            &&& now(KeyState { e: true, ..keys }) == (Controls { interact: true, ..c })
        }),
{
}

/// No control comes from nothing: each needs a key or a finger of its own, and
/// firing may come from the mouse.
pub proof fn law_controls_have_a_cause(
    keys: KeyState,
    touch: TouchIntent,
    locked: bool,
    left_button: bool,
    page_space: bool,
)
    ensures
        ({
            let c = merged_controls(keys, touch, locked, left_button, page_space);
            &&& !keys.w && !keys.arrow_up && !touch.forward ==> !c.forward
            &&& !keys.s && !keys.arrow_down && !touch.backward ==> !c.backward
            &&& !keys.a && !keys.arrow_left && !touch.left ==> !c.left
            &&& !keys.d && !keys.arrow_right && !touch.right ==> !c.right
            &&& !keys.space && !page_space && !touch.jump ==> !c.jump
            &&& !left_button && !touch.fire ==> !c.fire
            &&& !keys.g && !touch.grenade ==> !c.grenade
            &&& !keys.e ==> !c.interact
        }),
{
}

/// A finger adds the control it is on and touches no other.
pub proof fn law_a_finger_adds_its_control(
    keys: KeyState,
    touch: TouchIntent,
    locked: bool,
    left_button: bool,
    page_space: bool,
)
    ensures
        ({
            let now = |t: TouchIntent| merged_controls(keys, t, locked, left_button, page_space);
            let c = now(touch);
            &&& now(TouchIntent { forward: true, ..touch }) == (Controls { forward: true, ..c })
            &&& now(TouchIntent { backward: true, ..touch }) == (Controls { backward: true, ..c })
            &&& now(TouchIntent { left: true, ..touch }) == (Controls { left: true, ..c })
            &&& now(TouchIntent { right: true, ..touch }) == (Controls { right: true, ..c })
            &&& now(TouchIntent { jump: true, ..touch }) == (Controls { jump: true, ..c })
            &&& now(TouchIntent { fire: true, ..touch }) == (Controls { fire: true, ..c })
            &&& now(TouchIntent { grenade: true, ..touch }) == (Controls { grenade: true, ..c })
        }),
{
}

/// The mouse fires only while it is captured and touch controls are off, and does
/// nothing else; the page's space bar jumps and does nothing else.
pub proof fn law_the_mouse_fires_only_while_captured(
    keys: KeyState,
    touch: TouchIntent,
    locked: bool,
    page_space: bool,
)
    ensures
        ({
            let up = merged_controls(keys, touch, locked, false, page_space);
            let down = merged_controls(keys, touch, locked, true, page_space);
            let jumped = merged_controls(keys, touch, locked, false, true);
            &&& down == (Controls { fire: down.fire, ..up })
            &&& up.fire == touch.fire
            &&& locked && !touch.enabled ==> down.fire
            &&& !locked || touch.enabled ==> down.fire == up.fire
            &&& jumped == (Controls { jump: true, ..up })
        }),
{
}

/// An input carries the controls, the aim and its number.
pub proof fn law_inputs_carry_the_controls(seq: u32, c: Controls, yaw: F32, pitch: F32)
    ensures
        input_with(seq, c, yaw, pitch).seq == seq,
        carries(input_with(seq, c, yaw, pitch), c, yaw, pitch),
{
}

/// A bounded queue keeps its tail: as much as fits, in order, the last entry
/// last.
pub proof fn law_newest_keeps_the_tail<A>(s: Seq<A>, cap: int, i: int)
    requires
        0 <= cap,
        0 <= i < newest(s, cap).len(),
    ensures
        newest(s, cap).len() == (if s.len() < cap {
            s.len() as int
        } else {
            cap
        }),
        newest(s, cap)[i] == s[s.len() - newest(s, cap).len() + i],
        newest(s, cap).last() == s.last(),
{
}

/// A match starts with no inputs, numbers from one and waits for the server.
pub proof fn law_prediction_starts_afresh()
    ensures
        fresh_prediction().pending.len() == 0,
        fresh_prediction().next_seq == 1,
        !fresh_prediction().synced,
        fresh_prediction().clamp_hits == 0,
        fresh_prediction().wf(),
{
}

/// What the server acknowledged leaves the queue, what it did not stays, and
/// nothing else about prediction changes but that it is seeded.
pub proof fn law_adopting_drops_exactly_the_acknowledged(v: PredictedView, acked: u32, i: int)
    requires
        v.wf(),
        0 <= i < v.pending.len(),
    ensures
        adopted(v, acked).pending.contains(v.pending[i]) <==> v.pending[i].seq > acked,
        adopted(v, acked).pending.len() <= v.pending.len(),
        adopted(v, acked).synced,
        adopted(v, acked).next_seq == v.next_seq,
        adopted(v, acked).clamp_hits == v.clamp_hits,
        adopted(v, acked).wf(),
{
    law_ack_leaves_exactly_later_inputs(v, acked, i);
}

} // verus!
