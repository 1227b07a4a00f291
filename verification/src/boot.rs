//! The first frames: when the engine counts as ready, how the menu backdrop is
//! spread over frames, and how the pointer and the menu camera are steered.

use vstd::prelude::*;

verus! {

/// Whether the end of the first frame has been noted.
#[derive(Clone, Copy, Debug, PartialEq, Eq, Structural)]
pub struct BootClock {
    pub first_frame_logged: bool,
}

impl BootClock {
    pub fn new() -> (r: BootClock)
        ensures
            !r.first_frame_logged,
    {
        BootClock { first_frame_logged: false }
    }

    /// Notes the end of a frame; true for the first one alone, on which the
    /// engine is ready and the two boot phases are recorded.
    pub fn mark_engine_ready_first_frame(&mut self) -> (r: bool)
        ensures
            r == !old(self).first_frame_logged,
            final(self).first_frame_logged,
    {
        let first = !self.first_frame_logged;
        self.first_frame_logged = true;
        first
    }
}

// ---- backdrop -----------------------------------------------------------------

/// A box of the menu backdrop: its middle in metres, its height in half metres
/// and its place in the palette.
#[derive(Clone, Copy, Debug, PartialEq, Eq, Structural)]
pub struct BackdropBox {
    pub x: i32,
    pub z: i32,
    pub half_metres: u32,
    pub color: u32,
}

/// Columns of the backdrop.
pub const BACKDROP_COLS: u32 = 5;

/// Rows of the backdrop, one per frame.
pub const BACKDROP_ROWS: u32 = 6;

/// The box in column `gx` and row `gz`.
pub open spec fn backdrop_box(gx: int, gz: int) -> BackdropBox {
    let i = gx * 6 + gz;
    BackdropBox {
        x: (12 * gx - 24) as i32,
        z: (12 * gz - 30) as i32,
        half_metres: (3 + (i * 17 + gx * 3 + gz * 7) % 14) as u32,
        color: (i % 6) as u32,
    }
}

/// The boxes of row `gz`.
pub open spec fn backdrop_row(gz: int) -> Seq<BackdropBox> {
    Seq::new(BACKDROP_COLS as nat, |gx: int| backdrop_box(gx, gz))
}

/// What a frame adds to the backdrop.
#[derive(Debug, PartialEq, Eq)]
pub enum BackdropStep {
    Nothing,
    /// The ground, the sun and the mesh that the boxes share.
    GroundAndSun,
    Boxes(Vec<BackdropBox>),
}

/// Progress of the backdrop.
#[derive(Clone, Copy, Debug, PartialEq, Eq, Structural)]
pub struct SkeletonSpawn {
    pub frame: u32,
    pub done: bool,
}

impl SkeletonSpawn {
    /// Done exactly when the last row stands.
    pub open spec fn wf(self) -> bool {
        self.frame <= 8 && (self.done <==> self.frame == 8)
    }

    pub fn new() -> (r: SkeletonSpawn)
        ensures
            r.wf(),
            r.frame == 0,
    {
        SkeletonSpawn { frame: 0, done: false }
    }

    /// One frame: nothing in the first, the ground in the second, then a row of
    /// boxes each until all rows stand.
    pub fn stagger_skeleton_backdrop(&mut self) -> (r: BackdropStep)
        requires
            old(self).wf(),
        ensures
            final(self).wf(),
            final(self).frame == (if old(self).done {
                8
            } else {
                old(self).frame + 1
            }),
            r is Nothing <==> old(self).frame == 0 || old(self).done,
            r is GroundAndSun <==> old(self).frame == 1,
            r is Boxes <==> 2 <= old(self).frame < 8,
            r is Boxes ==> r->Boxes_0@ == backdrop_row(old(self).frame - 2),
    {
        if self.done {
            return BackdropStep::Nothing;
        }
        self.frame = self.frame + 1;
        if self.frame == 1 {
            return BackdropStep::Nothing;
        }
        if self.frame == 2 {
            return BackdropStep::GroundAndSun;
        }
        let gz: u32 = self.frame - 3;
        let boxes = build_row(gz);
        if self.frame == 8 {
            self.done = true;
        }
        BackdropStep::Boxes(boxes)
    }
}

fn build_row(gz: u32) -> (r: Vec<BackdropBox>)
    requires
        gz < BACKDROP_ROWS,
    ensures
        r@ == backdrop_row(gz as int),
{
    let mut boxes: Vec<BackdropBox> = Vec::new();
    for gx in 0..BACKDROP_COLS
        invariant
            gz < BACKDROP_ROWS,
            boxes@ == backdrop_row(gz as int).take(gx as int),
    {
        let i: u32 = gx * 6 + gz;
        boxes.push(
            BackdropBox {
                x: 12 * gx as i32 - 24,
                z: 12 * gz as i32 - 30,
                half_metres: 3 + (i * 17 + gx * 3 + gz * 7) % 14,
                color: i % 6,
            },
        );
        assert(boxes@ =~= backdrop_row(gz as int).take(gx + 1));
    }
    assert(boxes@ =~= backdrop_row(gz as int));
    boxes
}

/// The boxes of the backdrop stand on a centred grid, no two in one place, each
/// at least a metre and a half high and at most eight.
pub proof fn law_backdrop_is_a_grid(ax: int, az: int, bx: int, bz: int)
    requires
        0 <= ax < BACKDROP_COLS,
        0 <= bx < BACKDROP_COLS,
        0 <= az < BACKDROP_ROWS,
        0 <= bz < BACKDROP_ROWS,
    ensures
        ({
            let a = backdrop_box(ax, az);
            let b = backdrop_box(bx, bz);
            &&& a.x == b.x && a.z == b.z <==> ax == bx && az == bz
            &&& -24 <= a.x <= 24
            &&& -30 <= a.z <= 30
            &&& 3 <= a.half_metres <= 16
            &&& a.color < 6
        }),
{
}

// ---- pointer and camera ---------------------------------------------------------

/// What happens to the pointer.
#[derive(Clone, Copy, Debug, PartialEq, Eq, Structural)]
pub enum CursorChange {
    Keep,
    /// Locked and hidden.
    Lock,
    /// Free and visible.
    Free,
}

/// A left click locks the pointer and Esc frees it, Esc having the last word. On
/// touch screens it is never locked, and freed where it was.
pub fn toggle_cursor_grab(
    touch: bool,
    grabbed: bool,
    left_click: bool,
    escape: bool,
) -> (r: CursorChange)
    ensures
        r == (if touch {
            if grabbed {
                CursorChange::Free
            } else {
                CursorChange::Keep
            }
        } else if escape {
            CursorChange::Free
        } else if left_click {
            CursorChange::Lock
        } else {
            CursorChange::Keep
        }),
{
    if touch {
        if grabbed {
            CursorChange::Free
        } else {
            CursorChange::Keep
        }
    } else if escape {
        CursorChange::Free
    } else if left_click {
        CursorChange::Lock
    } else {
        CursorChange::Keep
    }
}

/// Keys of the menu camera.
#[derive(Clone, Copy, Debug, PartialEq, Eq, Structural)]
pub struct FlyKeys {
    pub forward: bool,
    pub back: bool,
    pub left: bool,
    pub right: bool,
    pub up: bool,
    pub down: bool,
    pub sprint: bool,
}

/// Where the menu camera is steered: each axis by one step, and whether it
/// sprints.
#[derive(Clone, Copy, Debug, PartialEq, Eq, Structural)]
pub struct FlyWish {
    pub right: i8,
    pub forward: i8,
    pub up: i8,
    pub sprint: bool,
}

/// One key for, one against.
pub open spec fn balance(plus: bool, minus: bool) -> int {
    (if plus {
        1int
    } else {
        0
    }) - (if minus {
        1int
    } else {
        0
    })
}

fn weigh(plus: bool, minus: bool) -> (r: i8)
    ensures
        r == balance(plus, minus),
{
    if plus == minus {
        0
    } else if plus {
        1
    } else {
        -1
    }
}

/// Reads the menu camera's keys; opposite keys cancel out.
pub fn fly_camera_move(keys: &FlyKeys) -> (r: FlyWish)
    ensures
        r.right == balance(keys.right, keys.left),
        r.forward == balance(keys.forward, keys.back),
        r.up == balance(keys.up, keys.down),
        r.sprint == keys.sprint,
{
    FlyWish {
        right: weigh(keys.right, keys.left),
        forward: weigh(keys.forward, keys.back),
        up: weigh(keys.up, keys.down),
        sprint: keys.sprint,
    }
}

/// Whether the menu camera turns: only while the pointer is locked and moved.
pub fn fly_camera_look(grabbed: bool, moved: bool) -> (r: bool)
    ensures
        r == (grabbed && moved),
{
    grabbed && moved
}

/// The boxes stand twelve metres apart, the middle column in the middle.
pub proof fn law_backdrop_boxes_stand_apart(gx: int, gz: int)
    requires
        0 <= gx < BACKDROP_COLS - 1,
        0 <= gz < BACKDROP_ROWS - 1,
    ensures
        backdrop_box(gx + 1, gz).x == backdrop_box(gx, gz).x + 12,
        backdrop_box(gx, gz + 1).z == backdrop_box(gx, gz).z + 12,
        backdrop_box(gx + 1, gz).z == backdrop_box(gx, gz).z,
        backdrop_box(gx, gz + 1).x == backdrop_box(gx, gz).x,
        backdrop_box(2, gz).x == 0,
        backdrop_box(4 - gx, gz).x == -backdrop_box(gx, gz).x,
        backdrop_box(gx, 5 - gz).z == -backdrop_box(gx, gz).z,
        backdrop_row(gz).len() == BACKDROP_COLS,
        backdrop_row(gz)[gx] == backdrop_box(gx, gz),
{
}

/// A key steers its way, its opposite the other way, and both together not at all.
pub proof fn law_opposite_keys_cancel(plus: bool, minus: bool)
    ensures
        plus && !minus ==> balance(plus, minus) == 1,
        minus && !plus ==> balance(plus, minus) == -1,
        plus == minus ==> balance(plus, minus) == 0,
        balance(minus, plus) == -balance(plus, minus),
{
}

} // verus!
