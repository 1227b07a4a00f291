//! Connection bookkeeping: what one poll of the socket turns into, and the
//! bounded capture of outbound binary frames.
//!
//! The socket itself, text parsing and the snapshot codec sit outside. They
//! hand in what arrived and carry out the returned steps in order.

use vstd::prelude::*;
use crate::wire::{ClientMsg, ServerMsg, Snapshot};

verus! {

/// Most outbound binary frames kept for inspection.
pub const OUTBOUND_CAP: usize = 64;

/// What a frame's worth of polling yields.
#[derive(Debug, PartialEq, Eq)]
pub enum NetEvent {
    Connected,
    Msg(ServerMsg),
    Snap(Snapshot),
    /// Proximity voice: authoritative speaker slot and its PCM bytes.
    Voice { slot: u8, pcm: Vec<u8> },
    Closed(String),
}

/// What the socket reported.
#[derive(Debug, PartialEq, Eq)]
pub enum SocketEvent {
    Opened,
    /// A text frame, parsed; `None` where it is no known message.
    Text(Option<ServerMsg>),
    Binary(Vec<u8>),
    /// A frame that is neither text nor binary.
    Control,
    Error(String),
    Closed,
}

/// One step of handling what arrived, to be carried out in order.
#[derive(Debug, PartialEq, Eq)]
pub enum NetStep {
    /// Hand the event to the session.
    Emit(NetEvent),
    /// Answer the server.
    Reply(ClientMsg),
    /// Start the snapshot decoder from a fresh baseline.
    ResetDecoder,
    /// Decode a voice packet; emit it if it is one.
    DecodeVoice(Vec<u8>),
    /// Decode a snapshot; emit it if it is one.
    DecodeSnapshot(Vec<u8>),
}

/// A step with the closing reason taken as text.
pub enum NetStepView {
    Emit(NetEvent),
    EmitClosed(Seq<char>),
    Reply(ClientMsg),
    ResetDecoder,
    DecodeVoice(Vec<u8>),
    DecodeSnapshot(Vec<u8>),
}

impl View for NetStep {
    type V = NetStepView;

    open spec fn view(&self) -> NetStepView {
        match *self {
            NetStep::Emit(NetEvent::Closed(reason)) => NetStepView::EmitClosed(reason@),
            NetStep::Emit(ev) => NetStepView::Emit(ev),
            NetStep::Reply(msg) => NetStepView::Reply(msg),
            NetStep::ResetDecoder => NetStepView::ResetDecoder,
            NetStep::DecodeVoice(b) => NetStepView::DecodeVoice(b),
            NetStep::DecodeSnapshot(b) => NetStepView::DecodeSnapshot(b),
        }
    }
}

/// The views of a list of steps.
pub open spec fn step_views(s: Seq<NetStep>) -> Seq<NetStepView> {
    Seq::new(s.len(), |i: int| s[i]@)
}

/// The socket is gone after this event.
pub open spec fn ends_connection(ev: SocketEvent) -> bool {
    ev is Error || ev is Closed
}

/// What one socket event turns into. `voice_tag` is the first byte of a voice
/// packet.
pub open spec fn steps_for(ev: SocketEvent, voice_tag: u8) -> Seq<NetStepView> {
    match ev {
        SocketEvent::Opened => seq![NetStepView::Emit(NetEvent::Connected)],
        SocketEvent::Text(None) => Seq::empty(),
        SocketEvent::Text(Some(ServerMsg::Ping { t })) => seq![
            NetStepView::Reply(ClientMsg::Pong { t }),
        ],
        SocketEvent::Text(Some(m)) => if m is GameStart {
            seq![NetStepView::ResetDecoder, NetStepView::Emit(NetEvent::Msg(m))]
        } else {
            seq![NetStepView::Emit(NetEvent::Msg(m))]
        },
        SocketEvent::Binary(b) => if b@.len() > 0 && b@[0] == voice_tag {
            seq![NetStepView::DecodeVoice(b)]
        } else {
            seq![NetStepView::DecodeSnapshot(b)]
        },
        SocketEvent::Control => Seq::empty(),
        SocketEvent::Error(e) => seq![NetStepView::EmitClosed(e@)],
        SocketEvent::Closed => seq![NetStepView::EmitClosed("closed"@)],
    }
}

/// How many events are handled, given that the first `i` did not end the
/// connection: all up to and with the first that does.
pub open spec fn handled_count(events: Seq<SocketEvent>, i: int) -> int
    decreases events.len() - i,
{
    if i >= events.len() {
        events.len() as int
    } else if ends_connection(events[i]) {
        i + 1
    } else {
        handled_count(events, i + 1)
    }
}

/// The steps of the first `n` events, in order.
pub open spec fn steps_of(events: Seq<SocketEvent>, voice_tag: u8, n: int) -> Seq<NetStepView>
    decreases n,
{
    if n <= 0 {
        Seq::empty()
    } else {
        steps_of(events, voice_tag, n - 1) + steps_for(events[n - 1], voice_tag)
    }
}

/// The steps that hand injected events to the session.
pub open spec fn emits(injected: Seq<NetEvent>) -> Seq<NetStepView> {
    Seq::new(injected.len(), |i: int| NetStep::Emit(injected[i])@)
}

/// One WebSocket to the game server, without the socket.
#[derive(Debug)]
pub struct NetClient {
    /// A socket exists: text can be sent and events arrive.
    pub linked: bool,
    /// The server accepted the connection.
    pub connected: bool,
    /// Synthetic events handed out first at the next poll.
    pub injected: Vec<NetEvent>,
    /// The most recent outbound binary frames.
    pub outbound_bin: Vec<Vec<u8>>,
}

impl NetClient {
    pub fn disconnected() -> (r: Self)
        ensures
            !r.linked,
            !r.connected,
            r.injected@ == Seq::<NetEvent>::empty(),
            r.outbound_bin@ == Seq::<Vec<u8>>::empty(),
    {
        NetClient {
            linked: false,
            connected: false,
            injected: Vec::new(),
            outbound_bin: Vec::new(),
        }
    }

    /// The outcome of opening a socket. A fresh socket is not connected until
    /// the server accepts it, and its snapshot stream starts from a fresh
    /// baseline: the result says whether the decoder must be reset. A failed
    /// attempt changes nothing.
    pub fn connect(&mut self, opened: bool) -> (reset_decoder: bool)
        ensures
            reset_decoder == opened,
            final(self).linked == (old(self).linked || opened),
            final(self).connected == (old(self).connected && !opened),
            final(self).injected == old(self).injected,
            final(self).outbound_bin == old(self).outbound_bin,
    {
        if opened {
            self.linked = true;
            self.connected = false;
        }
        opened
    }

    pub fn is_connected(&self) -> (r: bool)
        ensures
            r == self.connected,
    {
        self.connected
    }

    /// Records an outbound binary frame. The capture keeps the newest
    /// `OUTBOUND_CAP` frames. The result says whether there is a socket to send
    /// it on.
    pub fn send_bin(&mut self, frame: Vec<u8>) -> (to_socket: bool)
        requires
            old(self).outbound_bin@.len() <= OUTBOUND_CAP,
        ensures
            to_socket == old(self).linked,
            final(self).outbound_bin@ == (if old(self).outbound_bin@.len() >= OUTBOUND_CAP {
                old(self).outbound_bin@.skip(1).push(frame)
            } else {
                old(self).outbound_bin@.push(frame)
            }),
            final(self).outbound_bin@.len() <= OUTBOUND_CAP,
            final(self).linked == old(self).linked,
            final(self).connected == old(self).connected,
            final(self).injected == old(self).injected,
    {
        let ghost q = self.outbound_bin@;
        if self.outbound_bin.len() >= OUTBOUND_CAP {
            self.outbound_bin.remove(0);
            assert(self.outbound_bin@ =~= q.skip(1));
        }
        self.outbound_bin.push(frame);
        self.linked
    }

    /// Takes the captured outbound binary frames.
    pub fn take_outbound_bin(&mut self) -> (r: Vec<Vec<u8>>)
        ensures
            r == old(self).outbound_bin,
            final(self).outbound_bin@ == Seq::<Vec<u8>>::empty(),
            final(self).linked == old(self).linked,
            final(self).connected == old(self).connected,
            final(self).injected == old(self).injected,
    {
        let mut taken: Vec<Vec<u8>> = Vec::new();
        std::mem::swap(&mut self.outbound_bin, &mut taken);
        taken
    }

    /// Queues a synthetic event for the next poll.
    pub fn inject(&mut self, ev: NetEvent)
        ensures
            final(self).injected@ == old(self).injected@.push(ev),
            final(self).linked == old(self).linked,
            final(self).connected == old(self).connected,
            final(self).outbound_bin == old(self).outbound_bin,
    {
        self.injected.push(ev);
    }

    /// Handles everything that arrived since the last poll: injected events
    /// first, then the socket's events in order, up to the one that ends the
    /// connection. Whatever follows that one is dropped.
    pub fn drain(&mut self, events: Vec<SocketEvent>, voice_tag: u8) -> (steps: Vec<NetStep>)
        ensures
            ({
                let n = handled_count(events@, 0);
                let closed = n > 0 && ends_connection(events@[n - 1]);
                &&& step_views(steps@) == emits(old(self).injected@) + steps_of(
                    events@,
                    voice_tag,
                    n,
                )
                &&& final(self).linked == (old(self).linked && !closed)
                &&& final(self).connected == (!closed && (old(self).connected || exists|i: int|
                    0 <= i < n && (#[trigger] events@[i]) is Opened))
                &&& final(self).injected@ == Seq::<NetEvent>::empty()
                &&& final(self).outbound_bin == old(self).outbound_bin
            }),
            forall|i: int|
                0 <= i < events@.len() && stays_open(events@, i) && passes_on(events@[i]) ==> emitted(
                    steps@,
                    NetEvent::Msg((#[trigger] events@[i])->Text_0->0),
                ),
            forall|i: int|
                0 <= i < old(self).injected@.len() ==> i < steps@.len() && steps@[i]@ == (
                NetStep::Emit(#[trigger] old(self).injected@[i]))@,
    {
        let ghost all = events@;
        let ghost inj = self.injected@;
        let ghost was_linked = self.linked;
        let ghost was_connected = self.connected;
        let ghost captured = self.outbound_bin;
        let mut injected: Vec<NetEvent> = Vec::new();
        std::mem::swap(&mut self.injected, &mut injected);
        let mut steps: Vec<NetStep> = Vec::new();
        for ev in it: injected
            invariant
                it.seq() == inj,
                step_views(steps@) == emits(inj.take(it.index() as int)),
        {
            let ghost n = it.index() as int;
            let ghost before = steps@;
            steps.push(NetStep::Emit(ev));
            assert(step_views(steps@) =~= step_views(before).push(NetStep::Emit(ev)@));
            assert(emits(inj.take(n + 1)) =~= emits(inj.take(n)).push(NetStep::Emit(ev)@));
        }
        assert(inj.take(inj.len() as int) =~= inj);
        let mut open: bool = true;
        let ghost mut n: int = 0;
        for ev in it: events
            invariant
                it.seq() == all,
                0 <= n <= it.index(),
                open == !(n > 0 && ends_connection(all[n - 1])),
                open ==> n == it.index() && handled_count(all, 0) == handled_count(all, n),
                !open ==> n == handled_count(all, 0),
                step_views(steps@) == emits(inj) + steps_of(all, voice_tag, n),
                self.linked == (was_linked && open),
                self.connected == (open && (was_connected || exists|i: int|
                    0 <= i < n && (#[trigger] all[i]) is Opened)),
                self.injected@ == Seq::<NetEvent>::empty(),
                self.outbound_bin == captured,
        {
            let ghost k = it.index() as int;
            let ghost before = steps@;
            if open {
                match ev {
                    SocketEvent::Opened => {
                        self.connected = true;
                        steps.push(NetStep::Emit(NetEvent::Connected));
                        assert(all[k] is Opened);
                    },
                    SocketEvent::Text(None) => {},
                    SocketEvent::Text(Some(ServerMsg::Ping { t })) => {
                        steps.push(NetStep::Reply(ClientMsg::Pong { t }));
                    },
                    SocketEvent::Text(Some(m)) => {
                        if matches!(m, ServerMsg::GameStart { .. }) {
                            steps.push(NetStep::ResetDecoder);
                        }
                        steps.push(NetStep::Emit(NetEvent::Msg(m)));
                    },
                    SocketEvent::Binary(b) => {
                        if b.len() > 0 && b[0] == voice_tag {
                            steps.push(NetStep::DecodeVoice(b));
                        } else {
                            steps.push(NetStep::DecodeSnapshot(b));
                        }
                    },
                    SocketEvent::Control => {},
                    SocketEvent::Error(e) => {
                        self.connected = false;
                        self.linked = false;
                        open = false;
                        steps.push(NetStep::Emit(NetEvent::Closed(e)));
                    },
                    SocketEvent::Closed => {
                        self.connected = false;
                        self.linked = false;
                        open = false;
                        steps.push(NetStep::Emit(NetEvent::Closed("closed".to_owned())));
                    },
                }
                assert(step_views(steps@) =~= step_views(before) + steps_for(all[k], voice_tag));
                proof {
                    if exists|i: int| 0 <= i < k && (#[trigger] all[i]) is Opened {
                        let i = choose|i: int| 0 <= i < k && (#[trigger] all[i]) is Opened;
                        assert(all[i] is Opened && 0 <= i < k + 1);
                    }
                    n = k + 1;
                }
            }
        }
        proof {
            let n = handled_count(all, 0);
            law_handling_stops_where_the_connection_ends(all);
            assert forall|i: int| 0 <= i < all.len() && stays_open(all, i) && passes_on(
                all[i],
            ) implies emitted(steps@, NetEvent::Msg((#[trigger] all[i])->Text_0->0)) by {
                let m = all[i]->Text_0->0;
                assert(i < n);
                law_messages_reach_the_session(all, voice_tag, n, i);
                let k = choose|k: int|
                    0 <= k < steps_of(all, voice_tag, n).len() && #[trigger] steps_of(
                        all,
                        voice_tag,
                        n,
                    )[k] == NetStepView::Emit(NetEvent::Msg(m));
                let at = emits(inj).len() + k;
                assert(step_views(steps@)[at] == NetStepView::Emit(NetEvent::Msg(m)));
                assert(steps@[at]@ == NetStepView::Emit(NetEvent::Msg(m)));
                assert(steps@[at] == NetStep::Emit(NetEvent::Msg(m)));
            }
            assert forall|i: int| 0 <= i < inj.len() implies i < steps@.len() && steps@[i]@ == (
            NetStep::Emit(#[trigger] inj[i]))@ by {
                assert(step_views(steps@)[i] == emits(inj)[i]);
            }
        }
        steps
    }
}

/// No event before this one ended the connection.
pub open spec fn stays_open(events: Seq<SocketEvent>, i: int) -> bool {
    forall|j: int| 0 <= j < i ==> !((#[trigger] events[j]) is Error || events[j] is Closed)
}

/// A text message the session has to hear of: any but a ping.
pub open spec fn passes_on(ev: SocketEvent) -> bool {
    ev is Text && ev->Text_0 is Some && !(ev->Text_0->0 is Ping)
}

/// Some step hands the event to the session.
pub open spec fn emitted(steps: Seq<NetStep>, ev: NetEvent) -> bool {
    exists|k: int| 0 <= k < steps.len() && #[trigger] steps[k] == NetStep::Emit(ev)
}

/// Events are handled up to the one that ends the connection, with it, and all of
/// them where none does.
pub proof fn law_handling_stops_where_the_connection_ends(events: Seq<SocketEvent>)
    ensures
        ({
            let n = handled_count(events, 0);
            &&& 0 <= n <= events.len()
            &&& forall|i: int|
                #![trigger events[i]]
                0 <= i < events.len() ==> (i < n <==> stays_open(events, i))
        }),
{
    lemma_handled(events, 0);
    let n = handled_count(events, 0);
    assert forall|i: int|
        #![trigger events[i]]
        0 <= i < events.len() implies (i < n <==> stays_open(events, i)) by {
        if i >= n {
            assert(events[n - 1] is Error || events[n - 1] is Closed);
        }
    }
}

proof fn lemma_handled(events: Seq<SocketEvent>, i: int)
    requires
        0 <= i <= events.len(),
    ensures
        ({
            let n = handled_count(events, i);
            &&& i <= n <= events.len()
            &&& n < events.len() ==> n > i
            &&& n < events.len() ==> (events[n - 1] is Error || events[n - 1] is Closed)
            &&& forall|j: int|
                i <= j < n - 1 ==> !((#[trigger] events[j]) is Error || events[j] is Closed)
        }),
    decreases events.len() - i,
{
    if i < events.len() && !ends_connection(events[i]) {
        lemma_handled(events, i + 1);
    }
}

/// Every handled message but a ping is handed to the session, as it arrived, at
/// the event's place; a game start right after the decoder was reset for it.
pub proof fn law_messages_reach_the_session(
    events: Seq<SocketEvent>,
    voice_tag: u8,
    n: int,
    i: int,
)
    requires
        0 <= i < n <= events.len(),
        passes_on(events[i]),
    ensures
        ({
            let all = steps_of(events, voice_tag, n);
            let m = events[i]->Text_0->0;
            let at = step_place(events, voice_tag, i) + (if m is GameStart {
                1int
            } else {
                0
            });
            &&& 0 <= at < all.len()
            &&& all[at] == NetStepView::Emit(NetEvent::Msg(m))
            &&& m is GameStart ==> all[at - 1] is ResetDecoder
        }),
{
    law_steps_keep_event_order(events, voice_tag, n, i);
    let all = steps_of(events, voice_tag, n);
    let here = steps_for(events[i], voice_tag);
    let at = step_place(events, voice_tag, i);
    assert forall|k: int| 0 <= k < here.len() implies all[at + k] == #[trigger] here[k] by {
        assert(all.subrange(at, at + here.len())[k] == here[k]);
    }
    assert(all[at] == here[0]);
    if events[i]->Text_0->0 is GameStart {
        assert(all[at + 1] == here[1]);
    }
}

/// Each event has the answer it asks for and no other: an accepted connection is
/// announced, a ping is answered with its own number and stays with us, frames
/// are decoded as voice or as snapshot by their first byte, a lost connection is
/// announced with its reason, and text that is no message, like control frames,
/// is nothing.
pub proof fn law_events_are_answered(ev: SocketEvent, voice_tag: u8)
    ensures
        ({
            let steps = steps_for(ev, voice_tag);
            match ev {
                SocketEvent::Opened => steps.len() == 1 && steps[0] == NetStepView::Emit(
                    NetEvent::Connected,
                ),
                SocketEvent::Text(Some(ServerMsg::Ping { t })) => steps.len() == 1 && steps[0]
                    == NetStepView::Reply(ClientMsg::Pong { t }),
                SocketEvent::Text(Some(m)) => {
                    &&& steps.last() == NetStepView::Emit(NetEvent::Msg(m))
                    &&& m is GameStart ==> steps.len() == 2 && steps[0] is ResetDecoder
                    &&& !(m is GameStart) ==> steps.len() == 1
                },
                SocketEvent::Text(None) => steps.len() == 0,
                SocketEvent::Control => steps.len() == 0,
                SocketEvent::Binary(b) => {
                    &&& steps.len() == 1
                    &&& b@.len() > 0 && b@[0] == voice_tag ==> steps[0] == NetStepView::DecodeVoice(
                        b,
                    )
                    &&& b@.len() == 0 || b@[0] != voice_tag ==> steps[0]
                        == NetStepView::DecodeSnapshot(b)
                },
                SocketEvent::Error(e) => steps.len() == 1 && steps[0] == NetStepView::EmitClosed(
                    e@,
                ),
                SocketEvent::Closed => steps.len() == 1 && steps[0] == NetStepView::EmitClosed(
                    "closed"@,
                ),
            }
        }),
{
}

/// A step reads as what it is.
pub proof fn law_steps_read_as_they_are(m: ServerMsg, reply: ClientMsg, reason: String, b: Vec<u8>)
    ensures
        NetStep::Emit(NetEvent::Msg(m))@ == NetStepView::Emit(NetEvent::Msg(m)),
        NetStep::Emit(NetEvent::Connected)@ == NetStepView::Emit(NetEvent::Connected),
        NetStep::Emit(NetEvent::Closed(reason))@ == NetStepView::EmitClosed(reason@),
        NetStep::Reply(reply)@ == NetStepView::Reply(reply),
        NetStep::DecodeVoice(b)@ == NetStepView::DecodeVoice(b),
        NetStep::DecodeSnapshot(b)@ == NetStepView::DecodeSnapshot(b),
{
}

/// Where the steps of event `i` begin.
pub open spec fn step_place(events: Seq<SocketEvent>, voice_tag: u8, i: int) -> int {
    steps_of(events, voice_tag, i).len() as int
}

/// The steps of an event stand together, after those of every earlier event.
pub proof fn law_steps_keep_event_order(events: Seq<SocketEvent>, voice_tag: u8, n: int, i: int)
    requires
        0 <= i < n <= events.len(),
    ensures
        ({
            let all = steps_of(events, voice_tag, n);
            let here = steps_for(events[i], voice_tag);
            let at = step_place(events, voice_tag, i);
            &&& at + here.len() == step_place(events, voice_tag, i + 1)
            &&& at + here.len() <= all.len()
            &&& all.subrange(at, at + here.len()) == here
            &&& all.take(at) == steps_of(events, voice_tag, i)
        }),
    decreases n,
{
    let all = steps_of(events, voice_tag, n);
    let here = steps_for(events[i], voice_tag);
    let at = step_place(events, voice_tag, i);
    if i == n - 1 {
        assert(all.subrange(at, at + here.len()) =~= here);
        assert(all.take(at) =~= steps_of(events, voice_tag, i));
    } else {
        law_steps_keep_event_order(events, voice_tag, n - 1, i);
        let shorter = steps_of(events, voice_tag, n - 1);
        assert(all.subrange(at, at + here.len()) =~= shorter.subrange(at, at + here.len()));
        assert(all.take(at) =~= shorter.take(at));
    }
}

/// A game start resets the snapshot decoder before the session hears of it and
/// before any frame that follows it in the same poll is decoded.
pub proof fn law_game_start_resets_decoder_before_later_frames(
    events: Seq<SocketEvent>,
    voice_tag: u8,
    n: int,
    start: int,
    later: int,
)
    requires
        0 <= start < later < n <= events.len(),
        events[start] is Text,
        events[start]->Text_0 is Some,
        events[start]->Text_0->0 is GameStart,
    ensures
        ({
            let all = steps_of(events, voice_tag, n);
            let at = step_place(events, voice_tag, start);
            &&& all[at] is ResetDecoder
            &&& all[at + 1] == NetStepView::Emit(NetEvent::Msg(events[start]->Text_0->0))
            &&& at + 2 <= step_place(events, voice_tag, later)
        }),
    decreases later,
{
    let all = steps_of(events, voice_tag, n);
    let at = step_place(events, voice_tag, start);
    law_steps_keep_event_order(events, voice_tag, n, start);
    let here = steps_for(events[start], voice_tag);
    assert(all.subrange(at, at + 2)[0] == here[0]);
    assert(all.subrange(at, at + 2)[1] == here[1]);
    if later > start + 1 {
        law_game_start_resets_decoder_before_later_frames(events, voice_tag, n, start, later - 1);
    }
}

} // verus!
