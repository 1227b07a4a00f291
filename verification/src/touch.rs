//! On-screen controls: a virtual stick on the left, aim drags on the right, and
//! buttons.
//!
//! Everything ends up in [`TouchIntent`], which joins keyboard and mouse in the
//! same input samples. Positions are opaque here; measuring them is the
//! caller's.

use vstd::prelude::*;
use crate::game::Session;
use crate::scalar::F32;

verus! {

/// Bit pattern of 0.35: displacement, as a fraction of the stick's radius,
/// before a direction turns on.
pub const STICK_DEADZONE_BITS: u32 = 0x3eb3_3333;

/// Bit pattern of 12.0: movement in pixels below which a press is a tap.
pub const TAP_MOVE_PX_BITS: u32 = 0x4140_0000;

/// Bit pattern of 0.22: longest duration in seconds of a tap.
pub const TAP_MAX_S_BITS: u32 = 0x3e61_47ae;

/// Bit pattern of 1.4 times the stick's radius of 64: how close to the resting
/// stick a press snaps to it.
pub const STICK_SNAP_BITS: u32 = 0x42b3_3333;

/// Bit pattern of 0.5: share of the screen's width, from the left, that takes the
/// stick. The other half takes the aim.
pub const STICK_ZONE_BITS: u32 = 0x3f00_0000;

/// Pointer id of the mouse when it stands in for a finger.
pub const MOUSE_PTR: u64 = u64::MAX;

/// Per-frame contribution of the touch controls to the input sample.
#[derive(Clone, Copy, Debug, PartialEq, Eq, Structural)]
pub struct TouchIntent {
    /// This client is in touch-control mode.
    pub enabled: bool,
    pub forward: bool,
    pub backward: bool,
    pub left: bool,
    pub right: bool,
    pub jump: bool,
    pub fire: bool,
    pub grenade: bool,
    pub melee: bool,
    pub reload: bool,
}

/// The on-screen buttons.
#[derive(Clone, Copy, Debug, PartialEq, Eq, Structural)]
pub enum TouchBtn {
    Fire,
    Jump,
    Grenade,
    Melee,
    Reload,
}

/// Where a button sits and what it says. Lengths are in pixels; the insets run
/// from the right and the bottom edge to the button's middle.
#[derive(Debug, PartialEq, Eq)]
pub struct ButtonLayout {
    pub label: String,
    pub size: u32,
    pub inset_right: u32,
    pub inset_bottom: u32,
    pub font: u32,
    /// How far from the middle a press still belongs to the button.
    pub reach: F32,
}

/// Bit pattern of 0.55 times the size of the fire button.
pub const FIRE_REACH_BITS: u32 = 0x4241_999a;

/// Bit pattern of 0.55 times the size of the other buttons.
pub const SIDE_REACH_BITS: u32 = 0x4215_999a;

/// A button's caption.
pub open spec fn button_label(btn: TouchBtn) -> Seq<char> {
    match btn {
        TouchBtn::Fire => "FIRE"@,
        TouchBtn::Jump => "JUMP"@,
        TouchBtn::Grenade => "NADE"@,
        TouchBtn::Melee => "MELEE"@,
        TouchBtn::Reload => "RELOAD"@,
    }
}

/// A button's diameter.
pub open spec fn button_size(btn: TouchBtn) -> u32 {
    if btn == TouchBtn::Fire {
        88
    } else {
        68
    }
}

/// A button's middle, from the right and the bottom edge.
pub open spec fn button_inset(btn: TouchBtn) -> (u32, u32) {
    match btn {
        TouchBtn::Fire => (56, 72),
        TouchBtn::Jump => (168, 150),
        TouchBtn::Grenade => (168, 72),
        TouchBtn::Melee => (250, 150),
        TouchBtn::Reload => (100, 220),
    }
}

/// How far from a button's middle a press still belongs to it.
pub open spec fn button_reach(btn: TouchBtn) -> F32 {
    if btn == TouchBtn::Fire {
        F32 { bits: FIRE_REACH_BITS }
    } else {
        F32 { bits: SIDE_REACH_BITS }
    }
}

/// Lays out a button.
pub fn button_layout(btn: TouchBtn) -> (r: ButtonLayout)
    ensures
        r.label@ == button_label(btn),
        r.size == button_size(btn),
        r.inset_right == button_inset(btn).0,
        r.inset_bottom == button_inset(btn).1,
        r.font == (if r.size >= 80 {
            14int
        } else {
            11
        }),
        r.reach == button_reach(btn),
{
    let side = F32::from_bits(SIDE_REACH_BITS);
    match btn {
        TouchBtn::Fire => ButtonLayout {
            label: "FIRE".to_owned(),
            size: 88,
            inset_right: 56,
            inset_bottom: 72,
            font: 14,
            reach: F32::from_bits(FIRE_REACH_BITS),
        },
        TouchBtn::Jump => ButtonLayout {
            label: "JUMP".to_owned(),
            size: 68,
            inset_right: 168,
            inset_bottom: 150,
            font: 11,
            reach: side,
        },
        TouchBtn::Grenade => ButtonLayout {
            label: "NADE".to_owned(),
            size: 68,
            inset_right: 168,
            inset_bottom: 72,
            font: 11,
            reach: side,
        },
        TouchBtn::Melee => ButtonLayout {
            label: "MELEE".to_owned(),
            size: 68,
            inset_right: 250,
            inset_bottom: 150,
            font: 11,
            reach: side,
        },
        TouchBtn::Reload => ButtonLayout {
            label: "RELOAD".to_owned(),
            size: 68,
            inset_right: 100,
            inset_bottom: 220,
            font: 11,
            reach: side,
        },
    }
}

/// Squared distance between the middles of two buttons.
pub open spec fn button_gap2(a: TouchBtn, b: TouchBtn) -> int {
    let dx = button_inset(a).0 - button_inset(b).0;
    let dy = button_inset(a).1 - button_inset(b).1;
    dx * dx + dy * dy
}

/// No two buttons overlap: their middles are farther apart than half of both
/// sizes together.
pub proof fn law_buttons_do_not_overlap(a: TouchBtn, b: TouchBtn)
    requires
        a != b,
    ensures
        4 * button_gap2(a, b) > (button_size(a) + button_size(b)) * (button_size(a) + button_size(
            b,
        )),
{
    let dx = button_inset(a).0 - button_inset(b).0;
    let dy = button_inset(a).1 - button_inset(b).1;
    let s = button_size(a) + button_size(b);
    assert(4 * (dx * dx + dy * dy) > s * s) by (nonlinear_arith)
        requires
            s == 136 || s == 156,
            s == 136 ==> dx >= 82 || dx <= -82 || dy >= 78 || dy <= -78 || (dx >= 68 || dx <= -68)
                && (dy >= 70 || dy <= -70),
            s == 156 ==> dx >= 112 || dx <= -112 || dy >= 148 || dy <= -148,
    ;
}

/// Whether a press belongs to a button, given its distance from each button's
/// middle.
pub fn over_button(dists: &Vec<(TouchBtn, F32)>) -> (r: bool)
    ensures
        r == exists|i: int|
            0 <= i < dists@.len() && (#[trigger] dists@[i]).1.at_most(button_reach(dists@[i].0)),
{
    for k in 0..dists.len()
        invariant
            forall|j: int|
                0 <= j < k ==> !(#[trigger] dists@[j]).1.at_most(button_reach(dists@[j].0)),
    {
        let (btn, d) = dists[k];
        let reach = match btn {
            TouchBtn::Fire => F32::from_bits(FIRE_REACH_BITS),
            _ => F32::from_bits(SIDE_REACH_BITS),
        };
        if d.le(reach) {
            assert(dists@[k as int].1.at_most(button_reach(dists@[k as int].0)));
            return true;
        }
    }
    false
}

/// What the mouse does in place of a finger in a frame, in this order.
#[derive(Clone, Copy, Debug, PartialEq, Eq, Structural)]
pub struct MouseSteps {
    pub begins: bool,
    pub moves: bool,
    pub ends: bool,
}

/// The mouse in place of a finger: it presses and drags only over the window, and
/// lets go anywhere.
pub fn mouse_steps(
    over_window: bool,
    just_pressed: bool,
    pressed: bool,
    just_released: bool,
) -> (r: MouseSteps)
    ensures
        r == (MouseSteps {
            begins: over_window && just_pressed,
            moves: over_window && pressed,
            ends: just_released,
        }),
{
    MouseSteps {
        begins: over_window && just_pressed,
        moves: over_window && pressed,
        ends: just_released,
    }
}

/// A stick displacement, x to the right and y down.
#[derive(Clone, Copy, Debug, PartialEq, Eq, Structural)]
pub struct StickVec {
    pub x: F32,
    pub y: F32,
}

/// Directions held, as (forward, backward, left, right): up on the stick is
/// forward, and each axis has its own dead zone.
pub open spec fn stick_directions(vec: StickVec, deadzone: F32) -> (bool, bool, bool, bool) {
    (
        vec.y.below(deadzone.negated()),
        deadzone.below(vec.y),
        vec.x.below(deadzone.negated()),
        deadzone.below(vec.x),
    )
}

/// Maps a stick displacement to (forward, backward, left, right).
pub fn stick_to_move(vec: StickVec, deadzone: F32) -> (r: (bool, bool, bool, bool))
    ensures
        r == stick_directions(vec, deadzone),
{
    let low = deadzone.neg();
    (vec.y.lt(low), deadzone.lt(vec.y), vec.x.lt(low), deadzone.lt(vec.x))
}

/// Opposite directions are never held together, given a dead zone that is not
/// negative.
pub proof fn law_opposite_directions_exclude_each_other(vec: StickVec, deadzone: F32)
    requires
        deadzone.rank() >= 0,
    ensures
        ({
            let (f, b, l, r) = stick_directions(vec, deadzone);
            !(f && b) && !(l && r)
        }),
{
}

/// A completed press is a tap if it was both short and still.
pub fn is_tap(duration_s: F32, move_px: F32, max_s: F32, max_px: F32) -> (r: bool)
    ensures
        r == (duration_s.at_most(max_s) && move_px.at_most(max_px)),
{
    duration_s.le(max_s) && move_px.le(max_px)
}

/// The pointer that holds the stick.
#[derive(Debug, PartialEq, Eq)]
pub struct StickTrack<P> {
    pub id: u64,
    pub origin: P,
    pub vec: StickVec,
}

impl<P: Copy> Copy for StickTrack<P> {

}

impl<P: Copy> Clone for StickTrack<P> {
    fn clone(&self) -> (r: Self)
        ensures
            r == *self,
    {
        *self
    }
}

/// The pointer that drags the aim.
#[derive(Debug, PartialEq, Eq)]
pub struct AimTrack<P> {
    pub id: u64,
    pub last: P,
    pub start: P,
    /// Set once the pointer moved far enough not to be a tap.
    pub dragging: bool,
}

impl<P: Copy> Copy for AimTrack<P> {

}

impl<P: Copy> Clone for AimTrack<P> {
    fn clone(&self) -> (r: Self)
        ensures
            r == *self,
    {
        *self
    }
}

/// Where a new press landed.
#[derive(Debug, PartialEq, Eq)]
pub struct Press<P> {
    pub id: u64,
    pub pos: P,
    /// Over one of the buttons.
    pub on_button: bool,
    /// Its distance from the left edge, and where the stick's part of the
    /// screen ends.
    pub x: F32,
    pub zone_end: F32,
    /// Its distance from the resting stick.
    pub home_dist: F32,
    pub stick_home: P,
}

impl<P: Copy> Copy for Press<P> {

}

impl<P: Copy> Clone for Press<P> {
    fn clone(&self) -> (r: Self)
        ensures
            r == *self,
    {
        *self
    }
}

impl<P> Press<P> {
    /// In the stick's part of the screen, left of its end.
    pub open spec fn in_stick_zone(self) -> bool {
        self.x.below(self.zone_end)
    }

    /// Close enough to the resting stick to snap to it.
    pub open spec fn near_home(self) -> bool {
        self.home_dist.below(F32 { bits: STICK_SNAP_BITS })
    }
}

/// Which pointers are held, and for what.
#[derive(Debug, PartialEq, Eq)]
pub struct TouchState<P> {
    pub stick: Option<StickTrack<P>>,
    pub aim: Option<AimTrack<P>>,
    pub audio_unlocked: bool,
}

impl<P: Copy> Copy for TouchState<P> {

}

impl<P: Copy> Clone for TouchState<P> {
    fn clone(&self) -> (r: Self)
        ensures
            r == *self,
    {
        *self
    }
}

impl<P: Copy> TouchState<P> {
    pub fn new() -> (r: Self)
        ensures
            r.stick is None,
            r.aim is None,
            !r.audio_unlocked,
            r.exclusive(),
    {
        TouchState { stick: None, aim: None, audio_unlocked: false }
    }

    /// A pointer goes down. On a button it is left to the button. In the stick
    /// zone it takes the free stick, with the origin at the press, or at the
    /// stick's rest where the press is close to it. Otherwise it takes the free
    /// aim.
    pub fn begin_pointer(&mut self, press: Press<P>)
        ensures
            final(self).audio_unlocked == old(self).audio_unlocked,
            final(self).stick == (if !press.on_button && press.in_stick_zone() && old(self).stick is None {
                Some(
                    StickTrack {
                        id: press.id,
                        origin: if press.near_home() { press.stick_home } else { press.pos },
                        vec: StickVec { x: F32 { bits: 0 }, y: F32 { bits: 0 } },
                    },
                )
            } else {
                old(self).stick
            }),
            final(self).aim == (if !press.on_button && !(press.in_stick_zone() && old(self).stick is None)
                && old(self).aim is None {
                Some(AimTrack { id: press.id, last: press.pos, start: press.pos, dragging: false })
            } else {
                old(self).aim
            }),
            old(self).exclusive() && !old(self).held(press.id) ==> final(self).exclusive(),
            !press.on_button && old(self).stick is None && press.x.below(press.zone_end)
                ==> final(self).stick is Some && final(self).stick->0.id == press.id
                && final(self).aim == old(self).aim,
            !press.on_button && old(self).aim is None && !press.x.below(press.zone_end)
                ==> final(self).aim is Some && final(self).aim->0.id == press.id
                && final(self).aim->0.start == press.pos && final(self).stick == old(self).stick,
            press.on_button ==> *final(self) == *old(self),
    {
        if press.on_button {
            return;
        }
        if press.x.lt(press.zone_end) && self.stick.is_none() {
            let near_home = press.home_dist.lt(F32::from_bits(STICK_SNAP_BITS));
            self.stick = Some(
                StickTrack {
                    id: press.id,
                    origin: if near_home { press.stick_home } else { press.pos },
                    vec: StickVec { x: F32 { bits: 0 }, y: F32 { bits: 0 } },
                },
            );
        } else if self.aim.is_none() {
            self.aim = Some(
                AimTrack { id: press.id, last: press.pos, start: press.pos, dragging: false },
            );
        }
    }

    /// This pointer holds the stick or the aim.
    pub open spec fn held(self, id: u64) -> bool {
        self.stick is Some && self.stick->0.id == id || self.aim is Some && self.aim->0.id == id
    }

    /// No pointer holds both the stick and the aim.
    pub open spec fn exclusive(self) -> bool {
        self.stick is Some && self.aim is Some ==> self.stick->0.id != self.aim->0.id
    }

    /// This pointer holds the stick.
    pub open spec fn holds_stick(self, id: u64) -> bool {
        self.stick is Some && self.stick->0.id == id
    }

    /// This pointer holds the aim and not the stick.
    pub open spec fn holds_aim(self, id: u64) -> bool {
        !self.holds_stick(id) && self.aim is Some && self.aim->0.id == id
    }

    /// The stick's origin, for the pointer that holds it.
    pub fn stick_origin(&self, id: u64) -> (r: Option<P>)
        ensures
            r == (if self.holds_stick(id) { Some(self.stick->0.origin) } else { None }),
    {
        match self.stick {
            Some(s) => if s.id == id { Some(s.origin) } else { None },
            None => None,
        }
    }

    /// Where the aim drag started, for the pointer that holds it.
    pub fn aim_start(&self, id: u64) -> (r: Option<P>)
        ensures
            r == (if self.holds_aim(id) { Some(self.aim->0.start) } else { None }),
    {
        if self.stick_origin(id).is_some() {
            return None;
        }
        match self.aim {
            Some(a) => if a.id == id { Some(a.start) } else { None },
            None => None,
        }
    }

    /// The stick's pointer moved: `vec` is its clamped displacement.
    pub fn move_stick(&mut self, id: u64, vec: StickVec)
        ensures
            final(self).aim == old(self).aim,
            final(self).audio_unlocked == old(self).audio_unlocked,
            final(self).stick == (if old(self).holds_stick(id) {
                Some(StickTrack { vec, ..old(self).stick->0 })
            } else {
                old(self).stick
            }),
    {
        match self.stick {
            Some(s) => {
                if s.id == id {
                    self.stick = Some(StickTrack { id: s.id, origin: s.origin, vec });
                }
            },
            None => {},
        }
    }

    /// The aim's pointer moved to `pos`, `total` away from where it started.
    /// Once it is no tap any more, every step aims: the result is where the
    /// step began. Before, the pointer is only followed.
    pub fn move_aim(&mut self, id: u64, pos: P, total: F32) -> (step_from: Option<P>)
        ensures
            final(self).stick == old(self).stick,
            final(self).audio_unlocked == old(self).audio_unlocked,
            ({
                let drags = old(self).holds_aim(id) && (old(self).aim->0.dragging || F32 {
                    bits: TAP_MOVE_PX_BITS,
                }.at_most(total));
                &&& step_from == (if drags { Some(old(self).aim->0.last) } else { None })
                &&& final(self).aim == (if old(self).holds_aim(id) {
                    Some(AimTrack { last: pos, dragging: drags, ..old(self).aim->0 })
                } else {
                    old(self).aim
                })
            }),
    {
        if self.stick_origin(id).is_some() {
            return None;
        }
        match self.aim {
            Some(a) => {
                if a.id == id {
                    let drags: bool = a.dragging || F32::from_bits(TAP_MOVE_PX_BITS).le(total);
                    self.aim = Some(
                        AimTrack { id: a.id, last: pos, start: a.start, dragging: drags },
                    );
                    if drags {
                        return Some(a.last);
                    }
                }
                None
            },
            None => None,
        }
    }

    /// A pointer went up or was cancelled: whatever it held is free again.
    pub fn end_pointer(&mut self, id: u64)
        ensures
            final(self).audio_unlocked == old(self).audio_unlocked,
            final(self).stick == (if old(self).stick is Some && old(self).stick->0.id == id {
                None
            } else {
                old(self).stick
            }),
            final(self).aim == (if old(self).aim is Some && old(self).aim->0.id == id {
                None
            } else {
                old(self).aim
            }),
            !final(self).held(id),
            old(self).exclusive() ==> final(self).exclusive(),
    {
        match self.stick {
            Some(s) => {
                if s.id == id {
                    self.stick = None;
                }
            },
            None => {},
        }
        match self.aim {
            Some(a) => {
                if a.id == id {
                    self.aim = None;
                }
            },
            None => {},
        }
    }

    /// The first gesture unlocks audio, once: the result says that this was it.
    pub fn unlock_audio_on_gesture(&mut self, gesture: bool) -> (unlock: bool)
        ensures
            unlock == (gesture && !old(self).audio_unlocked),
            final(self).audio_unlocked == (old(self).audio_unlocked || gesture),
            final(self).stick == old(self).stick,
            final(self).aim == old(self).aim,
    {
        let first: bool = gesture && !self.audio_unlocked;
        if gesture {
            self.audio_unlocked = true;
        }
        first
    }

    /// The directions the stick holds this frame.
    pub fn stick_bools(&self) -> (r: (bool, bool, bool, bool))
        ensures
            r == (match self.stick {
                Some(s) => stick_directions(s.vec, F32 { bits: STICK_DEADZONE_BITS }),
                None => (false, false, false, false),
            }),
    {
        match self.stick {
            Some(s) => stick_to_move(s.vec, F32::from_bits(STICK_DEADZONE_BITS)),
            None => (false, false, false, false),
        }
    }
}

impl TouchIntent {
    pub fn new(enabled: bool) -> (r: Self)
        ensures
            r == (TouchIntent {
                enabled,
                forward: false,
                backward: false,
                left: false,
                right: false,
                jump: false,
                fire: false,
                grenade: false,
                melee: false,
                reload: false,
            }),
    {
        TouchIntent {
            enabled,
            forward: false,
            backward: false,
            left: false,
            right: false,
            jump: false,
            fire: false,
            grenade: false,
            melee: false,
            reload: false,
        }
    }

    /// Takes this frame's stick directions; the buttons stay.
    pub fn set_directions(&mut self, dirs: (bool, bool, bool, bool))
        ensures
            *final(self) == (TouchIntent {
                forward: dirs.0,
                backward: dirs.1,
                left: dirs.2,
                right: dirs.3,
                ..*old(self)
            }),
    {
        self.forward = dirs.0;
        self.backward = dirs.1;
        self.left = dirs.2;
        self.right = dirs.3;
    }

    /// Takes this frame's buttons: each is held exactly while one of its kind is
    /// pressed; the directions stay.
    pub fn sample_buttons(&mut self, pressed: &Vec<TouchBtn>)
        ensures
            *final(self) == (TouchIntent {
                fire: pressed@.contains(TouchBtn::Fire),
                jump: pressed@.contains(TouchBtn::Jump),
                grenade: pressed@.contains(TouchBtn::Grenade),
                melee: pressed@.contains(TouchBtn::Melee),
                reload: pressed@.contains(TouchBtn::Reload),
                ..*old(self)
            }),
    {
        self.fire = holds(pressed, TouchBtn::Fire);
        self.jump = holds(pressed, TouchBtn::Jump);
        self.grenade = holds(pressed, TouchBtn::Grenade);
        self.melee = holds(pressed, TouchBtn::Melee);
        self.reload = holds(pressed, TouchBtn::Reload);
    }
}

fn holds(pressed: &Vec<TouchBtn>, btn: TouchBtn) -> (r: bool)
    ensures
        r == pressed@.contains(btn),
{
    for k in 0..pressed.len()
        invariant
            forall|j: int| 0 <= j < k ==> pressed@[j] != btn,
    {
        if pressed[k] == btn {
            return true;
        }
    }
    false
}

/// The controls show only in touch mode and only while playing.
pub fn touch_chrome_visible(intent: &TouchIntent, session: Session) -> (r: bool)
    ensures
        r == (intent.enabled && session is Playing),
{
    intent.enabled && matches!(session, Session::Playing { .. })
}

/// The stick walks where it is pushed: up the screen is forward, down backward,
/// and to the sides sideways, each once it is farther out than the dead zone.
pub proof fn law_the_stick_walks_where_it_is_pushed(vec: StickVec, deadzone: F32)
    requires
        !vec.x.nan(),
        !vec.y.nan(),
        !deadzone.nan(),
        deadzone.rank() >= 0,
    ensures
        ({
            let (forward, backward, left, right) = stick_directions(vec, deadzone);
            &&& forward <==> vec.y.rank() < -deadzone.rank()
            &&& backward <==> vec.y.rank() > deadzone.rank()
            &&& left <==> vec.x.rank() < -deadzone.rank()
            &&& right <==> vec.x.rank() > deadzone.rank()
        }),
{
}

/// Pushing the stick the opposite way walks the opposite way.
pub proof fn law_the_stick_is_symmetric(vec: StickVec, deadzone: F32)
    requires
        deadzone.rank() >= 0,
    ensures
        ({
            let (f, b, l, r) = stick_directions(vec, deadzone);
            let back = stick_directions(
                StickVec { x: vec.x.negated(), y: vec.y.negated() },
                deadzone,
            );
            back == (b, f, r, l)
        }),
{
}

/// A press is the stick's exactly left of the zone's end, and snaps to the resting
/// stick exactly within its reach.
pub proof fn law_presses_left_of_the_end_are_the_sticks<P>(press: Press<P>)
    requires
        !press.x.nan(),
        !press.zone_end.nan(),
        !press.home_dist.nan(),
    ensures
        press.in_stick_zone() <==> press.x.rank() < press.zone_end.rank(),
        press.near_home() <==> press.home_dist.rank() < STICK_SNAP_BITS,
{
}

/// A pointer holds what has its id: the stick, else the aim, and never both.
pub proof fn law_pointers_hold_by_id<P: Copy>(t: TouchState<P>, id: u64)
    ensures
        t.holds_stick(id) <==> t.stick is Some && t.stick->0.id == id,
        t.holds_aim(id) ==> t.aim is Some && t.aim->0.id == id && !t.holds_stick(id),
        t.held(id) <==> t.holds_stick(id) || (t.aim is Some && t.aim->0.id == id),
        t.exclusive() && t.aim is Some && t.aim->0.id == id ==> t.holds_aim(id),
{
}

/// A press on a button may miss its edge a little, but not by its size; the fire
/// button is the largest and reaches farthest.
pub proof fn law_buttons_reach_past_their_edge(btn: TouchBtn)
    ensures
        btn == TouchBtn::Fire ==> (F32 { bits: 0x4230_0000 }).below(button_reach(btn))
            && button_reach(btn).below(F32 { bits: 0x42b0_0000 }) && button_size(btn) == 88,
        btn != TouchBtn::Fire ==> (F32 { bits: 0x4208_0000 }).below(button_reach(btn))
            && button_reach(btn).below(F32 { bits: 0x4288_0000 }) && button_size(btn) == 68,
        btn != TouchBtn::Fire ==> button_reach(btn).below(button_reach(TouchBtn::Fire)),
{
}

/// Every button says what it does.
pub proof fn law_buttons_say_what_they_do(a: TouchBtn, b: TouchBtn)
    ensures
        button_label(a) == button_label(b) ==> a == b,
        button_label(TouchBtn::Fire) == "FIRE"@,
        button_label(TouchBtn::Jump) == "JUMP"@,
        button_label(TouchBtn::Grenade) == "NADE"@,
        button_label(TouchBtn::Melee) == "MELEE"@,
        button_label(TouchBtn::Reload) == "RELOAD"@,
{
    reveal_strlit("FIRE");
    reveal_strlit("JUMP");
    reveal_strlit("NADE");
    reveal_strlit("MELEE");
    reveal_strlit("RELOAD");
    assert("FIRE"@[0] == 'F');
    assert("JUMP"@[0] == 'J');
    assert("NADE"@[0] == 'N');
    assert("MELEE"@[0] == 'M');
    assert("RELOAD"@[0] == 'R');
}

/// The fire button lies nearest to the corner where the thumb rests.
pub proof fn law_fire_is_under_the_thumb(btn: TouchBtn)
    requires
        btn != TouchBtn::Fire,
    ensures
        button_inset(TouchBtn::Fire).0 < button_inset(btn).0,
        button_inset(TouchBtn::Fire).1 <= button_inset(btn).1,
{
}

} // verus!
