//! Pointer event latch: order MOVE before PRESS before RELEASE.
//!
//! A GUI pass that receives several pointer events in one frame can drop a
//! click. A press that shares its frame with the pointer move that brought the
//! cursor there is tested against the previous hover state, and a press that
//! shares its frame with its own release never arms the button. The latch
//! re-stages such batches so that the GUI sees, in successive frames, the move,
//! then the press, then the release. Events that already span frames pass
//! through untouched.

use vstd::prelude::*;

verus! {

/// A pointer button of the GUI.
#[derive(Clone, Copy, Debug, PartialEq, Eq, Structural)]
pub enum PointerButton {
    Primary,
    Secondary,
    Middle,
    Extra1,
    Extra2,
}

/// A GUI input event. `T` carries what the latch never looks at: positions,
/// modifiers and the contents of events that are not about the pointer.
#[derive(Debug, PartialEq, Eq)]
pub enum Event<T> {
    PointerMoved(T),
    PointerButton { button: PointerButton, pressed: bool, detail: T },
    Other(T),
}

pub const POINTER_BUTTON_COUNT: usize = 5;

/// The slot of a button in a per-button table.
pub open spec fn button_slot(button: PointerButton) -> int {
    match button {
        PointerButton::Primary => 0,
        PointerButton::Secondary => 1,
        PointerButton::Middle => 2,
        PointerButton::Extra1 => 3,
        PointerButton::Extra2 => 4,
    }
}

impl<T> Event<T> {
    pub open spec fn is_move(self) -> bool {
        self is PointerMoved
    }

    pub open spec fn is_press(self) -> bool {
        self is PointerButton && self->pressed
    }

    pub open spec fn presses(self, button: PointerButton) -> bool {
        self is PointerButton && self->pressed && self->button == button
    }

    pub open spec fn is_release(self) -> bool {
        self is PointerButton && !self->pressed
    }
}

/// Some event of the batch moves the pointer.
pub open spec fn has_move<T>(s: Seq<Event<T>>) -> bool {
    exists|i: int| 0 <= i < s.len() && (#[trigger] s[i]).is_move()
}

/// Some event of the batch presses a button.
pub open spec fn has_press<T>(s: Seq<Event<T>>) -> bool {
    exists|i: int| 0 <= i < s.len() && (#[trigger] s[i]).is_press()
}

/// One of the first `n` events presses `button`.
pub open spec fn pressed_before<T>(s: Seq<Event<T>>, n: int, button: PointerButton) -> bool {
    exists|j: int| 0 <= j < n && (#[trigger] s[j]).presses(button)
}

/// Event `i` releases a button that an earlier event of the batch pressed.
pub open spec fn release_follows_press<T>(s: Seq<Event<T>>, i: int) -> bool {
    s[i].is_release() && pressed_before(s, i, s[i]->button)
}

/// Event `i` is a press, or the release of a button pressed anywhere in the
/// batch.
pub open spec fn press_or_matching_release<T>(s: Seq<Event<T>>, i: int) -> bool {
    s[i].is_press() || (s[i].is_release() && pressed_before(s, s.len() as int, s[i]->button))
}

/// Which events of a batch wait for the next frame when only releases are
/// split off.
pub open spec fn release_mask<T>(s: Seq<Event<T>>) -> Seq<bool> {
    Seq::new(s.len(), |i: int| release_follows_press(s, i))
}

/// Which events of a batch wait for the next frame when a move shares the
/// batch with a press.
pub open spec fn press_mask<T>(s: Seq<Event<T>>) -> Seq<bool> {
    Seq::new(s.len(), |i: int| press_or_matching_release(s, i))
}

/// Which events of a batch wait for the next frame.
pub open spec fn deferral_mask<T>(s: Seq<Event<T>>) -> Seq<bool> {
    if has_move(s) && has_press(s) {
        press_mask(s)
    } else {
        release_mask(s)
    }
}

/// The places below `n` at which the mask reads `want`, in order.
pub open spec fn places(mask: Seq<bool>, want: bool, n: int) -> Seq<int>
    decreases n,
{
    if n <= 0 {
        Seq::empty()
    } else if mask[n - 1] == want {
        places(mask, want, n - 1).push(n - 1)
    } else {
        places(mask, want, n - 1)
    }
}

/// The events among the first `n` at which the mask reads `want`, in order.
pub open spec fn picked<T>(s: Seq<Event<T>>, mask: Seq<bool>, want: bool, n: int) -> Seq<Event<T>> {
    let at = places(mask, want, n);
    Seq::new(at.len(), |k: int| s[at[k]])
}

/// What a frame's batch delivers now.
pub open spec fn delivered<T>(s: Seq<Event<T>>) -> Seq<Event<T>> {
    picked(s, deferral_mask(s), false, s.len() as int)
}

/// What a frame's batch leaves for the next frame.
pub open spec fn held_back<T>(s: Seq<Event<T>>) -> Seq<Event<T>> {
    picked(s, deferral_mask(s), true, s.len() as int)
}

/// `places` lists, in increasing order, exactly the indices that read `want`.
pub proof fn lemma_places(mask: Seq<bool>, want: bool, n: int)
    requires
        0 <= n <= mask.len(),
    ensures
        forall|k: int|
            0 <= k < places(mask, want, n).len() ==> 0 <= #[trigger] places(mask, want, n)[k] < n
                && mask[places(mask, want, n)[k]] == want,
        forall|k: int, l: int|
            0 <= k < l < places(mask, want, n).len() ==> #[trigger] places(mask, want, n)[k]
                < #[trigger] places(mask, want, n)[l],
        forall|i: int|
            0 <= i < n && #[trigger] mask[i] == want ==> places(mask, want, n).contains(i),
    decreases n,
{
    if n > 0 {
        lemma_places(mask, want, n - 1);
        let prev = places(mask, want, n - 1);
        let now = places(mask, want, n);
        assert forall|i: int| 0 <= i < n && #[trigger] mask[i] == want implies now.contains(i) by {
            if i < n - 1 {
                assert(prev.contains(i));
                let k = choose|k: int| 0 <= k < prev.len() && prev[k] == i;
                assert(now[k] == i);
            } else {
                assert(now[prev.len() as int] == i);
            }
        }
    }
}

/// Slot of a button in a per-button table.
pub fn pointer_button_index(button: PointerButton) -> (r: Option<usize>)
    ensures
        r is Some,
        r->0 == button_slot(button),
        r->0 < POINTER_BUTTON_COUNT,
{
    match button {
        PointerButton::Primary => Some(0),
        PointerButton::Secondary => Some(1),
        PointerButton::Middle => Some(2),
        PointerButton::Extra1 => Some(3),
        PointerButton::Extra2 => Some(4),
    }
}

/// The mark of a button in a per-button table.
fn is_marked(seen: &[bool; POINTER_BUTTON_COUNT], button: PointerButton) -> (r: bool)
    ensures
        r == seen@[button_slot(button)],
{
    match pointer_button_index(button) {
        Some(i) => seen[i],
        None => false,
    }
}

/// The table has a mark exactly for the buttons pressed among the first `n`
/// events.
pub open spec fn marks_presses<T>(seen: Seq<bool>, s: Seq<Event<T>>, n: int) -> bool {
    &&& seen.len() == POINTER_BUTTON_COUNT
    &&& forall|b: PointerButton| #[trigger] seen[button_slot(b)] == pressed_before(s, n, b)
}

/// Advances the table of pressed buttons by event `n`.
fn mark_press<T>(seen: &mut [bool; POINTER_BUTTON_COUNT], ev: &Event<T>, Ghost(s): Ghost<Seq<Event<T>>>, Ghost(n): Ghost<int>)
    requires
        0 <= n < s.len(),
        s[n] == *ev,
        marks_presses(old(seen)@, s, n),
    ensures
        marks_presses(final(seen)@, s, n + 1),
{
    let ghost before = seen@;
    proof {
        assert forall|b: PointerButton| #[trigger] pressed_before(s, n + 1, b) == (pressed_before(s, n, b) || s[n].presses(b)) by {
            if pressed_before(s, n, b) {
                let j = choose|j: int| 0 <= j < n && (#[trigger] s[j]).presses(b);
                assert(s[j].presses(b));
            }
        }
    }
    match ev {
        Event::PointerButton { button, pressed, .. } => {
            if *pressed {
                match pointer_button_index(*button) {
                    Some(i) => seen[i] = true,
                    None => {},
                }
            }
        },
        _ => {},
    }
    assert forall|b: PointerButton| #[trigger] seen@[button_slot(b)] == pressed_before(s, n + 1, b) by {
        assert(before[button_slot(b)] == pressed_before(s, n, b));
        assert(pressed_before(s, n + 1, b) == (pressed_before(s, n, b) || s[n].presses(b)));
    }
}

/// A release is deferred only if a press of the same button already appeared
/// earlier in the same list; everything else stays.
///
/// - a same-frame press and release split across frames;
/// - a release left over from the previous frame stays, even if a new press
///   follows it.
pub fn split_same_frame_releases<T>(events: &mut Vec<Event<T>>, deferred_out: &mut Vec<Event<T>>)
    ensures
        final(events)@ == picked(old(events)@, release_mask(old(events)@), false, old(events)@.len() as int),
        final(deferred_out)@ == old(deferred_out)@ + picked(old(events)@, release_mask(old(events)@), true, old(events)@.len() as int),
{
    let ghost s = events@;
    let ghost mask = release_mask(s);
    let ghost out0 = deferred_out@;
    let mut batch: Vec<Event<T>> = Vec::new();
    std::mem::swap(events, &mut batch);
    let mut seen: [bool; POINTER_BUTTON_COUNT] = [false; POINTER_BUTTON_COUNT];
    for ev in it: batch
        invariant
            it.seq() == s,
            mask == release_mask(s),
            marks_presses(seen@, s, it.index() as int),
            events@ == picked(s, mask, false, it.index() as int),
            deferred_out@ == out0 + picked(s, mask, true, it.index() as int),
    {
        let ghost n = it.index() as int;
        let deferred: bool = match &ev {
            Event::PointerButton { button, pressed, .. } => !*pressed && is_marked(&seen, *button),
            _ => false,
        };
        assert(deferred == mask[n]);
        mark_press(&mut seen, &ev, Ghost(s), Ghost(n));
        if deferred {
            deferred_out.push(ev);
        } else {
            events.push(ev);
        }
        assert(events@ =~= picked(s, mask, false, n + 1));
        assert(deferred_out@ =~= out0 + picked(s, mask, true, n + 1));
    }
}

/// Keep everything that is not about buttons, moves included. Defer every press
/// and every release of a button that also presses in this list.
pub fn defer_presses_and_matching_releases<T>(
    events: &mut Vec<Event<T>>,
    deferred_out: &mut Vec<Event<T>>,
)
    ensures
        final(events)@ == picked(old(events)@, press_mask(old(events)@), false, old(events)@.len() as int),
        final(deferred_out)@ == old(deferred_out)@ + picked(old(events)@, press_mask(old(events)@), true, old(events)@.len() as int),
{
    let ghost s = events@;
    let ghost mask = press_mask(s);
    let ghost out0 = deferred_out@;
    let mut seen: [bool; POINTER_BUTTON_COUNT] = [false; POINTER_BUTTON_COUNT];
    for k in 0..events.len()
        invariant
            events@ == s,
            marks_presses(seen@, s, k as int),
    {
        mark_press(&mut seen, &events[k], Ghost(s), Ghost(k as int));
    }
    let mut batch: Vec<Event<T>> = Vec::new();
    std::mem::swap(events, &mut batch);
    for ev in it: batch
        invariant
            it.seq() == s,
            mask == press_mask(s),
            marks_presses(seen@, s, s.len() as int),
            events@ == picked(s, mask, false, it.index() as int),
            deferred_out@ == out0 + picked(s, mask, true, it.index() as int),
    {
        let ghost n = it.index() as int;
        let deferred: bool = match &ev {
            Event::PointerButton { button, pressed, .. } => *pressed || is_marked(&seen, *button),
            _ => false,
        };
        assert(deferred == mask[n]);
        if deferred {
            deferred_out.push(ev);
        } else {
            events.push(ev);
        }
        assert(events@ =~= picked(s, mask, false, n + 1));
        assert(deferred_out@ =~= out0 + picked(s, mask, true, n + 1));
    }
}

/// Enforces cross-frame ordering for pointer gestures that share a batch.
///
/// 1. If a move and a press share the list, moves and everything that is not
///    about buttons stay; every press, and every release of a button pressed in
///    the list, is deferred.
/// 2. Otherwise, if a press and a later release of the same button share the
///    list, the press stays and that release is deferred.
/// 3. Otherwise the list is left alone.
pub fn split_same_frame_pointer_batches<T>(
    events: &mut Vec<Event<T>>,
    deferred_out: &mut Vec<Event<T>>,
)
    ensures
        final(events)@ == delivered(old(events)@),
        final(deferred_out)@ == old(deferred_out)@ + held_back(old(events)@),
{
    let ghost s = events@;
    let mut moves: bool = false;
    let mut presses: bool = false;
    for k in 0..events.len()
        invariant
            events@ == s,
            moves == has_move(s.take(k as int)),
            presses == has_press(s.take(k as int)),
    {
        proof {
            let now = s.take(k as int);
            let next = s.take(k + 1);
            if has_move(now) {
                let i = choose|i: int| 0 <= i < now.len() && (#[trigger] now[i]).is_move();
                assert(next[i].is_move());
            }
            if has_press(now) {
                let i = choose|i: int| 0 <= i < now.len() && (#[trigger] now[i]).is_press();
                assert(next[i].is_press());
            }
            if has_move(next) && !s[k as int].is_move() {
                let i = choose|i: int| 0 <= i < next.len() && (#[trigger] next[i]).is_move();
                assert(now[i].is_move());
            }
            if has_press(next) && !s[k as int].is_press() {
                let i = choose|i: int| 0 <= i < next.len() && (#[trigger] next[i]).is_press();
                assert(now[i].is_press());
            }
            assert(next[k as int] == s[k as int]);
        }
        match &events[k] {
            Event::PointerMoved(_) => {
                moves = true;
            },
            Event::PointerButton { pressed, .. } => {
                if *pressed {
                    presses = true;
                }
            },
            Event::Other(_) => {},
        }
    }
    assert(s.take(s.len() as int) =~= s);
    if moves && presses {
        defer_presses_and_matching_releases(events, deferred_out);
    } else {
        split_same_frame_releases(events, deferred_out);
    }
}

/// The events queued for one context, in order.
pub open spec fn queued_for<T>(q: Seq<(u64, Event<T>)>, context: u64) -> Seq<Event<T>>
    decreases q.len(),
{
    if q.len() == 0 {
        Seq::empty()
    } else if q.last().0 == context {
        queued_for(q.drop_last(), context).push(q.last().1)
    } else {
        queued_for(q.drop_last(), context)
    }
}

/// The events queued for every other context, in order.
pub open spec fn queued_elsewhere<T>(q: Seq<(u64, Event<T>)>, context: u64) -> Seq<(u64, Event<T>)>
    decreases q.len(),
{
    if q.len() == 0 {
        Seq::empty()
    } else if q.last().0 == context {
        queued_elsewhere(q.drop_last(), context)
    } else {
        queued_elsewhere(q.drop_last(), context).push(q.last())
    }
}

/// Events tagged with the context they belong to.
pub open spec fn tagged<T>(context: u64, s: Seq<Event<T>>) -> Seq<(u64, Event<T>)> {
    Seq::new(s.len(), |i: int| (context, s[i]))
}

/// What is left of the queue once the first `n` contexts took their share.
pub open spec fn queue_after<T>(
    q: Seq<(u64, Event<T>)>,
    contexts: Seq<(u64, Vec<Event<T>>)>,
    n: int,
) -> Seq<(u64, Event<T>)>
    decreases n,
{
    if n <= 0 {
        q
    } else {
        queued_elsewhere(queue_after(q, contexts, n - 1), contexts[n - 1].0)
    }
}

/// The batch context `n` works on: what was queued for it, then what arrived.
pub open spec fn batch_of<T>(
    q: Seq<(u64, Event<T>)>,
    contexts: Seq<(u64, Vec<Event<T>>)>,
    n: int,
) -> Seq<Event<T>> {
    queued_for(queue_after(q, contexts, n), contexts[n].0) + contexts[n].1@
}

/// What the first `n` contexts hold back for the next frame.
pub open spec fn held_by_first<T>(
    q: Seq<(u64, Event<T>)>,
    contexts: Seq<(u64, Vec<Event<T>>)>,
    n: int,
) -> Seq<(u64, Event<T>)>
    decreases n,
{
    if n <= 0 {
        Seq::empty()
    } else {
        held_by_first(q, contexts, n - 1) + tagged(
            contexts[n - 1].0,
            held_back(batch_of(q, contexts, n - 1)),
        )
    }
}

/// Pointer events waiting for the next frame, each with the context it belongs
/// to, so that several contexts stay apart.
pub struct EguiClickLatch<T> {
    pub deferred: Vec<(u64, Event<T>)>,
}

impl<T> EguiClickLatch<T> {
    pub fn new() -> (r: Self)
        ensures
            r.deferred@ == Seq::<(u64, Event<T>)>::empty(),
    {
        EguiClickLatch { deferred: Vec::new() }
    }

    /// One frame. Each context first gets what the previous frame held back for
    /// it, then its batch is split. What was held back for a context that is not
    /// listed any more is dropped.
    pub fn latch_pointer_event_order(&mut self, contexts: &mut Vec<(u64, Vec<Event<T>>)>)
        ensures
            final(contexts)@.len() == old(contexts)@.len(),
            forall|k: int|
                0 <= k < old(contexts)@.len() ==> (#[trigger] final(contexts)@[k]).0 == old(contexts)@[k].0
                    && final(contexts)@[k].1@ == delivered(
                    batch_of(old(self).deferred@, old(contexts)@, k),
                ),
            final(self).deferred@ == held_by_first(
                old(self).deferred@,
                old(contexts)@,
                old(contexts)@.len() as int,
            ),
    {
        let ghost q0 = self.deferred@;
        let ghost c0 = contexts@;
        let mut pending: Vec<(u64, Event<T>)> = Vec::new();
        std::mem::swap(&mut self.deferred, &mut pending);
        let mut k: usize = 0;
        while k < contexts.len()
            invariant
                k <= contexts.len(),
                contexts@.len() == c0.len(),
                forall|j: int| k <= j < c0.len() ==> contexts@[j] == c0[j],
                forall|j: int|
                    0 <= j < k ==> (#[trigger] contexts@[j]).0 == c0[j].0 && contexts@[j].1@
                        == delivered(batch_of(q0, c0, j)),
                pending@ == queue_after(q0, c0, k as int),
                self.deferred@ == held_by_first(q0, c0, k as int),
            decreases contexts.len() - k,
        {
            let context: u64 = contexts[k].0;
            let ghost queue = pending@;
            let mut taken: Vec<(u64, Event<T>)> = Vec::new();
            std::mem::swap(&mut pending, &mut taken);
            let mut batch: Vec<Event<T>> = Vec::new();
            for entry in it: taken
                invariant
                    it.seq() == queue,
                    batch@ == queued_for(queue.take(it.index() as int), context),
                    pending@ == queued_elsewhere(queue.take(it.index() as int), context),
            {
                let ghost n = it.index() as int;
                assert(queue.take(n + 1).drop_last() =~= queue.take(n));
                assert(queue.take(n + 1).last() == entry);
                if entry.0 == context {
                    batch.push(entry.1);
                } else {
                    pending.push(entry);
                }
            }
            assert(queue.take(queue.len() as int) =~= queue);
            let mut arrived: Vec<Event<T>> = Vec::new();
            std::mem::swap(&mut contexts[k].1, &mut arrived);
            batch.append(&mut arrived);
            assert(batch@ =~= batch_of(q0, c0, k as int));
            let mut held: Vec<Event<T>> = Vec::new();
            split_same_frame_pointer_batches(&mut batch, &mut held);
            contexts[k].1 = batch;
            let ghost held_seq = held@;
            assert(held_seq =~= held_back(batch_of(q0, c0, k as int)));
            let ghost before = self.deferred@;
            for ev in it: held
                invariant
                    it.seq() == held_seq,
                    self.deferred@ == before + tagged(context, held_seq.take(it.index() as int)),
            {
                let ghost n = it.index() as int;
                self.deferred.push((context, ev));
                assert(self.deferred@ =~= before + tagged(context, held_seq.take(n + 1)));
            }
            assert(held_seq.take(held_seq.len() as int) =~= held_seq);
            assert(self.deferred@ =~= held_by_first(q0, c0, k + 1));
            k += 1;
        }
    }
}

/// Only listed contexts have events waiting: a context that went away leaves
/// nothing behind.
pub proof fn law_vanished_contexts_leave_nothing<T>(
    q: Seq<(u64, Event<T>)>,
    contexts: Seq<(u64, Vec<Event<T>>)>,
    n: int,
    i: int,
)
    requires
        0 <= n <= contexts.len(),
        0 <= i < held_by_first(q, contexts, n).len(),
    ensures
        exists|k: int| 0 <= k < n && (#[trigger] contexts[k]).0 == held_by_first(q, contexts, n)[i].0,
    decreases n,
{
    if n > 0 {
        let before = held_by_first(q, contexts, n - 1);
        if i < before.len() {
            law_vanished_contexts_leave_nothing(q, contexts, n - 1, i);
            let k = choose|k: int| 0 <= k < n - 1 && (#[trigger] contexts[k]).0 == before[i].0;
            assert(contexts[k].0 == held_by_first(q, contexts, n)[i].0);
        } else {
            assert(contexts[n - 1].0 == held_by_first(q, contexts, n)[i].0);
        }
    }
}

/// The two parts of a batch, side by side, hold the same events as the batch,
/// each as often as before: nothing is lost, nothing is made up.
pub proof fn law_split_keeps_every_event<T>(s: Seq<Event<T>>)
    ensures
        delivered(s).to_multiset().add(held_back(s).to_multiset()) == s.to_multiset(),
        delivered(s).len() + held_back(s).len() == s.len(),
{
    lemma_partition(s, deferral_mask(s), s.len() as int);
    assert(s.take(s.len() as int) =~= s);
}

proof fn lemma_partition<T>(s: Seq<Event<T>>, mask: Seq<bool>, n: int)
    requires
        0 <= n <= s.len(),
    ensures
        picked(s, mask, false, n).to_multiset().add(picked(s, mask, true, n).to_multiset())
            == s.take(n).to_multiset(),
        picked(s, mask, false, n).len() + picked(s, mask, true, n).len() == n,
    decreases n,
{
    broadcast use vstd::seq_lib::group_to_multiset_ensures;

    let kept = picked(s, mask, false, n);
    let held = picked(s, mask, true, n);
    if n > 0 {
        lemma_partition(s, mask, n - 1);
        let kept0 = picked(s, mask, false, n - 1);
        let held0 = picked(s, mask, true, n - 1);
        assert(s.take(n) =~= s.take(n - 1).push(s[n - 1]));
        if mask[n - 1] {
            assert(held =~= held0.push(s[n - 1]));
            assert(kept =~= kept0);
        } else {
            assert(kept =~= kept0.push(s[n - 1]));
            assert(held =~= held0);
        }
        assert(kept.to_multiset().add(held.to_multiset()) =~= s.take(n).to_multiset());
    } else {
        assert(kept =~= Seq::empty());
        assert(held =~= Seq::empty());
        assert(s.take(0) =~= Seq::empty());
        assert(kept.to_multiset().add(held.to_multiset()) =~= s.take(0).to_multiset());
    }
}

/// Each part of a batch keeps the batch's order: its events stand in the batch
/// at increasing places, and no other event of the batch belongs to it.
pub proof fn law_split_keeps_order<T>(s: Seq<Event<T>>, held: bool, k: int, l: int)
    requires
        0 <= k < l < picked(s, deferral_mask(s), held, s.len() as int).len(),
    ensures
        ({
            let at = places(deferral_mask(s), held, s.len() as int);
            let part = picked(s, deferral_mask(s), held, s.len() as int);
            0 <= at[k] < at[l] < s.len() && part[k] == s[at[k]] && part[l] == s[at[l]]
        }),
{
    lemma_places(deferral_mask(s), held, s.len() as int);
}

/// No delivered batch packs a pointer move together with a press.
pub proof fn law_delivered_never_mixes_move_and_press<T>(s: Seq<Event<T>>)
    ensures
        !(has_move(delivered(s)) && has_press(delivered(s))),
{
    let mask = deferral_mask(s);
    let at = places(mask, false, s.len() as int);
    let kept = delivered(s);
    lemma_places(mask, false, s.len() as int);
    if has_move(kept) && has_press(kept) {
        let i = choose|i: int| 0 <= i < kept.len() && (#[trigger] kept[i]).is_move();
        let j = choose|j: int| 0 <= j < kept.len() && (#[trigger] kept[j]).is_press();
        assert(s[at[i]].is_move());
        assert(s[at[j]].is_press());
        assert(mask[at[j]]);
    }
}

/// In no delivered batch does a release follow a press of the same button.
pub proof fn law_delivered_never_releases_after_press<T>(s: Seq<Event<T>>, i: int)
    requires
        0 <= i < delivered(s).len(),
    ensures
        !release_follows_press(delivered(s), i),
{
    let mask = deferral_mask(s);
    let at = places(mask, false, s.len() as int);
    let kept = delivered(s);
    lemma_places(mask, false, s.len() as int);
    if release_follows_press(kept, i) {
        let b = kept[i]->button;
        let j = choose|j: int| 0 <= j < i && (#[trigger] kept[j]).presses(b);
        assert(at[j] < at[i]);
        assert(s[at[j]].presses(b));
        assert(mask[at[i]]);
    }
}

/// A batch that already spans frames (no move together with a press, no release
/// after a press of its button) is delivered unchanged.
pub proof fn law_spanning_batch_passes_unchanged<T>(s: Seq<Event<T>>)
    requires
        !(has_move(s) && has_press(s)),
        forall|i: int| 0 <= i < s.len() ==> !#[trigger] release_follows_press(s, i),
    ensures
        delivered(s) == s,
        held_back(s) == Seq::<Event<T>>::empty(),
{
    let mask = deferral_mask(s);
    assert forall|i: int| 0 <= i < s.len() implies !#[trigger] mask[i] by {
        assert(!release_follows_press(s, i));
    }
    lemma_nothing_masked(s, mask, s.len() as int);
    assert(s.take(s.len() as int) =~= s);
}

proof fn lemma_nothing_masked<T>(s: Seq<Event<T>>, mask: Seq<bool>, n: int)
    requires
        0 <= n <= s.len(),
        forall|i: int| 0 <= i < n ==> !#[trigger] mask[i],
    ensures
        picked(s, mask, false, n) == s.take(n),
        picked(s, mask, true, n) == Seq::<Event<T>>::empty(),
    decreases n,
{
    if n > 0 {
        lemma_nothing_masked(s, mask, n - 1);
        assert(picked(s, mask, false, n) =~= picked(s, mask, false, n - 1).push(s[n - 1]));
        assert(picked(s, mask, false, n) =~= s.take(n));
        assert(picked(s, mask, true, n) =~= Seq::<Event<T>>::empty());
    } else {
        assert(picked(s, mask, false, n) =~= s.take(n));
        assert(picked(s, mask, true, n) =~= Seq::<Event<T>>::empty());
    }
}

/// With nothing new arriving, any batch is fully delivered within three frames:
/// what the second frame holds back is delivered whole by the third.
pub proof fn law_every_batch_lands_within_three_frames<T>(s: Seq<Event<T>>)
    ensures
        held_back(held_back(held_back(s))) == Seq::<Event<T>>::empty(),
        delivered(held_back(held_back(s))) == held_back(held_back(s)),
{
    let first = held_back(s);
    let second = held_back(first);
    let at1 = places(deferral_mask(s), true, s.len() as int);
    let at2 = places(deferral_mask(first), true, first.len() as int);
    lemma_places(deferral_mask(s), true, s.len() as int);
    lemma_places(deferral_mask(first), true, first.len() as int);
    assert forall|i: int| 0 <= i < first.len() implies (#[trigger] first[i]) is PointerButton by {
        assert(first[i] == s[at1[i]]);
        assert(deferral_mask(s)[at1[i]]);
    }
    assert(!has_move(first));
    assert forall|i: int| 0 <= i < second.len() implies (#[trigger] second[i]).is_release() by {
        assert(second[i] == first[at2[i]]);
        assert(deferral_mask(first)[at2[i]]);
    }
    assert(!has_press(second));
    assert forall|i: int| 0 <= i < second.len() implies !#[trigger] release_follows_press(second, i) by {}
    law_spanning_batch_passes_unchanged(second);
}

/// A teleport click, a move, a press and a release of one button in one frame,
/// is delivered as move, press and release in three successive frames.
pub proof fn law_teleport_click_spans_three_frames<T>(at: T, down: T, up: T, button: PointerButton)
    ensures
        ({
            let moved = Event::PointerMoved(at);
            let press = Event::PointerButton { button, pressed: true, detail: down };
            let release = Event::PointerButton { button, pressed: false, detail: up };
            let click = seq![moved, press, release];
            &&& delivered(click) == seq![moved]
            &&& held_back(click) == seq![press, release]
            &&& delivered(held_back(click)) == seq![press]
            &&& held_back(held_back(click)) == seq![release]
            &&& delivered(held_back(held_back(click))) == seq![release]
        }),
{
    let moved = Event::PointerMoved(at);
    let press = Event::PointerButton { button, pressed: true, detail: down };
    let release = Event::PointerButton { button, pressed: false, detail: up };
    let click = seq![moved, press, release];
    reveal_with_fuel(places, 4);
    assert(click[0].is_move() && click[1].presses(button) && click[1].is_press());
    assert(has_move(click) && has_press(click));
    let mask = deferral_mask(click);
    assert(pressed_before(click, 3, button));
    assert(!mask[0] && mask[1] && mask[2]);
    assert(places(mask, false, 3) =~= seq![0int]);
    assert(places(mask, true, 3) =~= seq![1int, 2int]);
    assert(delivered(click) =~= seq![moved]);
    let rest = seq![press, release];
    assert(held_back(click) =~= rest);
    assert(!has_move(rest));
    assert(rest[0].presses(button));
    let mask2 = deferral_mask(rest);
    assert(!mask2[0] && mask2[1]);
    assert(places(mask2, false, 2) =~= seq![0int]);
    assert(places(mask2, true, 2) =~= seq![1int]);
    assert(delivered(rest) =~= seq![press]);
    let tail = seq![release];
    assert(held_back(rest) =~= tail);
    law_every_batch_lands_within_three_frames(click);
}

/// Events are read as what they are.
pub proof fn law_events_are_read_right<T>(button: PointerButton, pressed: bool, t: T)
    ensures
        ({
            let ev = Event::PointerButton { button, pressed, detail: t };
            &&& ev.is_press() <==> pressed
            &&& ev.is_release() <==> !pressed
            &&& forall|b: PointerButton| #[trigger] ev.presses(b) <==> pressed && b == button
            &&& !ev.is_move()
        }),
        Event::PointerMoved(t).is_move(),
        !Event::PointerMoved(t).is_press(),
        !Event::PointerMoved(t).is_release(),
        !Event::Other(t).is_move(),
        !Event::Other(t).is_press(),
        !Event::Other(t).is_release(),
{
}

/// Every button has a place of its own.
pub proof fn law_buttons_have_places_of_their_own(a: PointerButton, b: PointerButton)
    ensures
        button_slot(a) == button_slot(b) ==> a == b,
        0 <= button_slot(a) < POINTER_BUTTON_COUNT,
{
}

/// Where a move shares the batch with a press, exactly the presses and the
/// releases of the buttons they press wait; otherwise exactly the releases that
/// follow a press of their button.
pub proof fn law_what_waits<T>(s: Seq<Event<T>>, i: int)
    requires
        0 <= i < s.len(),
    ensures
        ({
            let moves = exists|k: int| 0 <= k < s.len() && (#[trigger] s[k]) is PointerMoved;
            let presses = exists|k: int|
                0 <= k < s.len() && (#[trigger] s[k]) is PointerButton && s[k]->pressed;
            let own_press_anywhere = exists|k: int|
                0 <= k < s.len() && (#[trigger] s[k]) is PointerButton && s[k]->pressed
                    && s[k]->button == s[i]->button;
            let own_press_before = exists|k: int|
                0 <= k < i && (#[trigger] s[k]) is PointerButton && s[k]->pressed && s[k]->button
                    == s[i]->button;
            let waits = deferral_mask(s)[i];
            &&& !(s[i] is PointerButton) ==> !waits
            &&& s[i] is PointerButton && moves && presses ==> (waits <==> s[i]->pressed
                || own_press_anywhere)
            &&& s[i] is PointerButton && !(moves && presses) ==> (waits <==> !s[i]->pressed
                && own_press_before)
        }),
{
    if has_move(s) {
        let k = choose|k: int| 0 <= k < s.len() && (#[trigger] s[k]).is_move();
        assert(s[k] is PointerMoved);
    }
    if exists|k: int| 0 <= k < s.len() && (#[trigger] s[k]) is PointerMoved {
        let k = choose|k: int| 0 <= k < s.len() && (#[trigger] s[k]) is PointerMoved;
        assert(s[k].is_move());
    }
    if has_press(s) {
        let k = choose|k: int| 0 <= k < s.len() && (#[trigger] s[k]).is_press();
        assert(s[k] is PointerButton && s[k]->pressed);
    }
    if exists|k: int| 0 <= k < s.len() && (#[trigger] s[k]) is PointerButton && s[k]->pressed {
        let k = choose|k: int|
            0 <= k < s.len() && (#[trigger] s[k]) is PointerButton && s[k]->pressed;
        assert(s[k].is_press());
    }
    if s[i] is PointerButton {
        let b = s[i]->button;
        lemma_pressed_before(s, s.len() as int, b);
        lemma_pressed_before(s, i, b);
    }
}

proof fn lemma_pressed_before<T>(s: Seq<Event<T>>, n: int, b: PointerButton)
    ensures
        pressed_before(s, n, b) <==> exists|k: int|
            0 <= k < n && (#[trigger] s[k]) is PointerButton && s[k]->pressed && s[k]->button == b,
{
    if pressed_before(s, n, b) {
        let k = choose|k: int| 0 <= k < n && (#[trigger] s[k]).presses(b);
        assert(s[k] is PointerButton && s[k]->pressed && s[k]->button == b);
    }
    if exists|k: int|
        0 <= k < n && (#[trigger] s[k]) is PointerButton && s[k]->pressed && s[k]->button == b {
        let k = choose|k: int|
            0 <= k < n && (#[trigger] s[k]) is PointerButton && s[k]->pressed && s[k]->button == b;
        assert(s[k].presses(b));
    }
}

/// A context gets what waits for it, and only that, in order.
pub proof fn law_contexts_get_their_own_events<T>(q: Seq<(u64, Event<T>)>, context: u64)
    ensures
        queued_for(q, context) == q.filter(|e: (u64, Event<T>)| e.0 == context).map_values(
            |e: (u64, Event<T>)| e.1,
        ),
        queued_elsewhere(q, context) == q.filter(|e: (u64, Event<T>)| e.0 != context),
    decreases q.len(),
{
    let own = |e: (u64, Event<T>)| e.0 == context;
    let inner = |e: (u64, Event<T>)| e.1;
    reveal(Seq::filter);
    if q.len() > 0 {
        law_contexts_get_their_own_events(q.drop_last(), context);
        let before = q.drop_last().filter(own);
        assert(before.push(q.last()).map_values(inner) =~= before.map_values(inner).push(
            q.last().1,
        ));
    } else {
        assert(q.filter(own).map_values(inner) =~= Seq::<Event<T>>::empty());
    }
}

/// A frame's batch begins with what waited for the context and ends with what
/// arrived for it now; contexts that came before took nothing that was not
/// theirs.
pub proof fn law_batches_begin_with_what_waited<T>(
    q: Seq<(u64, Event<T>)>,
    contexts: Seq<(u64, Vec<Event<T>>)>,
    k: int,
    context: u64,
)
    requires
        0 <= k < contexts.len(),
        contexts[k].0 == context,
        forall|i: int, j: int|
            0 <= i < j < contexts.len() ==> (#[trigger] contexts[i]).0 != (#[trigger] contexts[j]).0,
    ensures
        batch_of(q, contexts, k) == q.filter(|e: (u64, Event<T>)| e.0 == context).map_values(
            |e: (u64, Event<T>)| e.1,
        ) + contexts[k].1@,
{
    lemma_own_queue_survives(q, contexts, k, context);
    law_contexts_get_their_own_events(q, context);
}

proof fn lemma_own_queue_survives<T>(
    q: Seq<(u64, Event<T>)>,
    contexts: Seq<(u64, Vec<Event<T>>)>,
    n: int,
    context: u64,
)
    requires
        0 <= n <= contexts.len(),
        forall|i: int| 0 <= i < n ==> (#[trigger] contexts[i]).0 != context,
    ensures
        queued_for(queue_after(q, contexts, n), context) == queued_for(q, context),
    decreases n,
{
    if n > 0 {
        lemma_own_queue_survives(q, contexts, n - 1, context);
        assert(contexts[n - 1].0 != context);
        lemma_elsewhere_keeps(queue_after(q, contexts, n - 1), contexts[n - 1].0, context);
    }
}

proof fn lemma_elsewhere_keeps<T>(q: Seq<(u64, Event<T>)>, taken: u64, context: u64)
    requires
        taken != context,
    ensures
        queued_for(queued_elsewhere(q, taken), context) == queued_for(q, context),
    decreases q.len(),
{
    if q.len() > 0 {
        lemma_elsewhere_keeps(q.drop_last(), taken, context);
        let rest = queued_elsewhere(q.drop_last(), taken);
        if q.last().0 != taken {
            assert(rest.push(q.last()).drop_last() =~= rest);
        }
    }
}

} // verus!
