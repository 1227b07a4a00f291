//! Dressing of the mountain map: which walls get an earth slope, where pines
//! and rocks may stand, and how their meshes are put together.
//!
//! Nothing here touches what can be walked on. Coordinates and the measures
//! taken of them come from outside; only their order counts.

use vstd::prelude::*;
use crate::map_render::{GeomView, MeshGeom, P2, P3, Quad, Rgb, Rgba, Units, make_uvs};
use crate::scalar::{F32, F64};

verus! {

// ---- walls ------------------------------------------------------------------

/// A wall with the measures its role depends on, in metres.
#[derive(Clone, Copy, Debug, PartialEq, Eq, Structural)]
pub struct MeasuredWall {
    pub x0: F32,
    pub x1: F32,
    pub z0: F32,
    pub z1: F32,
    pub y1: F32,
    /// Extents along the three axes.
    pub sx: F32,
    pub sy: F32,
    pub sz: F32,
    /// How far the foot is from the ground.
    pub foot: F32,
    /// Two and a half times the thickness `sz`.
    pub slim: F32,
    /// Middle of the wall along x.
    pub mid: F32,
    /// `z1` and the gap of 0.8 that the next step of a stair may leave.
    pub reach: F32,
}

/// Bit pattern of 3.0: least length of a retaining wall.
pub const RETAIN_MIN_LEN_BITS: u32 = 0x4040_0000;

/// Bit pattern of 0.15: least thickness of a retaining wall, and how far its
/// foot may be from the ground.
pub const RETAIN_MIN_THICK_BITS: u32 = 0x3e19_999a;

/// Bit pattern of 1.2: greatest thickness of a retaining wall.
pub const RETAIN_MAX_THICK_BITS: u32 = 0x3f99_999a;

/// Bit pattern of 1.35: least height of a retaining wall.
pub const RETAIN_MIN_H_BITS: u32 = 0x3fac_cccd;

/// Bit pattern of 2.6: greatest height of a retaining wall.
pub const RETAIN_MAX_H_BITS: u32 = 0x4026_6666;

/// Bit pattern of 3.0: least width of a stair step.
pub const STAIR_MIN_W_BITS: u32 = 0x4040_0000;

/// Bit pattern of 0.2: least depth of a stair step.
pub const STAIR_MIN_THICK_BITS: u32 = 0x3e4c_cccd;

/// Bit pattern of 1.2: greatest depth of a stair step.
pub const STAIR_MAX_THICK_BITS: u32 = 0x3f99_999a;

/// Bit pattern of 0.12: a step is higher than this.
pub const STAIR_MIN_H_BITS: u32 = 0x3df5_c28f;

/// Bit pattern of 1.1: greatest height of a step.
pub const STAIR_MAX_H_BITS: u32 = 0x3f8c_cccd;

/// Bit pattern of 0.1: how far a step's foot may be from the ground.
pub const STAIR_FOOT_BITS: u32 = 0x3dcc_cccd;

/// `v` lies between `lo` and `hi`, both included.
pub open spec fn between(v: F32, lo: u32, hi: u32) -> bool {
    F32 { bits: lo }.at_most(v) && v.at_most(F32 { bits: hi })
}

impl MeasuredWall {
    /// A long, thin wall of middling height on the ground, running along x.
    /// Perimeter walls are far taller, so the height alone leaves them out.
    pub open spec fn retaining(self) -> bool {
        &&& !self.sx.below(F32 { bits: RETAIN_MIN_LEN_BITS })
        &&& between(self.sz, RETAIN_MIN_THICK_BITS, RETAIN_MAX_THICK_BITS)
        &&& between(self.sy, RETAIN_MIN_H_BITS, RETAIN_MAX_H_BITS)
        &&& !(F32 { bits: RETAIN_MIN_THICK_BITS }).below(self.foot)
        &&& self.slim.below(self.sx)
    }

    /// A wide, shallow, low box on the ground.
    pub open spec fn step(self) -> bool {
        &&& F32 { bits: STAIR_MIN_W_BITS }.at_most(self.sx)
        &&& between(self.sz, STAIR_MIN_THICK_BITS, STAIR_MAX_THICK_BITS)
        &&& F32 { bits: STAIR_MIN_H_BITS }.below(self.sy)
        &&& self.sy.at_most(F32 { bits: STAIR_MAX_H_BITS })
        &&& self.foot.at_most(F32 { bits: STAIR_FOOT_BITS })
    }
}

fn is_between(v: F32, lo: u32, hi: u32) -> (r: bool)
    ensures
        r == between(v, lo, hi),
{
    F32::from_bits(lo).le(v) && v.le(F32::from_bits(hi))
}

/// Whether a wall holds back a band of the slope.
pub fn is_retaining_wall(w: &MeasuredWall) -> (r: bool)
    ensures
        r == w.retaining(),
{
    !w.sx.lt(F32::from_bits(RETAIN_MIN_LEN_BITS)) && is_between(
        w.sz,
        RETAIN_MIN_THICK_BITS,
        RETAIN_MAX_THICK_BITS,
    ) && is_between(w.sy, RETAIN_MIN_H_BITS, RETAIN_MAX_H_BITS) && !F32::from_bits(
        RETAIN_MIN_THICK_BITS,
    ).lt(w.foot) && w.slim.lt(w.sx)
}

/// Whether a wall is a step of a stair.
pub fn is_stair_step(w: &MeasuredWall) -> (r: bool)
    ensures
        r == w.step(),
{
    F32::from_bits(STAIR_MIN_W_BITS).le(w.sx) && is_between(
        w.sz,
        STAIR_MIN_THICK_BITS,
        STAIR_MAX_THICK_BITS,
    ) && F32::from_bits(STAIR_MIN_H_BITS).lt(w.sy) && w.sy.le(F32::from_bits(STAIR_MAX_H_BITS))
        && w.foot.le(F32::from_bits(STAIR_FOOT_BITS))
}

/// No wall is both a retaining wall and a step, and a wall taller than the
/// greatest height is neither.
pub proof fn law_wall_roles_exclude_each_other(w: MeasuredWall)
    ensures
        !(w.retaining() && w.step()),
        (F32 { bits: RETAIN_MAX_H_BITS }).below(w.sy) ==> !w.retaining() && !w.step(),
{
}

// ---- picking in order ---------------------------------------------------------

/// What a picked item is sorted by: first `major`, then `minor`.
#[derive(Clone, Copy, Debug, PartialEq, Eq, Structural)]
pub struct SortKey {
    pub major: F32,
    pub minor: F32,
}

/// Item `a` comes before item `b`: by key, and by place where the keys agree.
pub open spec fn comes_before(keys: Seq<SortKey>, a: int, b: int) -> bool {
    let ka = keys[a];
    let kb = keys[b];
    ||| ka.major.rank() < kb.major.rank()
    ||| ka.major.rank() == kb.major.rank() && ka.minor.rank() < kb.minor.rank()
    ||| ka.major.rank() == kb.major.rank() && ka.minor.rank() == kb.minor.rank() && a < b
}

/// The places of the picked items, each once, sorted by key and then by place.
pub open spec fn picked_in_order(keys: Seq<SortKey>, picked: Seq<bool>, r: Seq<usize>) -> bool {
    &&& forall|i: int| 0 <= i < r.len() ==> (#[trigger] r[i]) < picked.len() && picked[r[i] as int]
    &&& forall|p: usize| p < picked.len() && #[trigger] picked[p as int] ==> r.contains(p)
    &&& forall|i: int, j: int|
        0 <= i < j < r.len() ==> comes_before(keys, #[trigger] r[i] as int, #[trigger] r[j] as int)
}

/// Where item `p`, the last in place, goes among the items in order.
fn slot_for(keys: &Vec<SortKey>, order: &Vec<usize>, p: usize) -> (at: usize)
    requires
        p < keys@.len(),
        forall|i: int| 0 <= i < order@.len() ==> (#[trigger] order@[i]) < p,
        forall|i: int, j: int|
            0 <= i < j < order@.len() ==> comes_before(
                keys@,
                #[trigger] order@[i] as int,
                #[trigger] order@[j] as int,
            ),
    ensures
        at <= order@.len(),
        forall|i: int| 0 <= i < at ==> comes_before(keys@, #[trigger] order@[i] as int, p as int),
        forall|i: int|
            at <= i < order@.len() ==> comes_before(keys@, p as int, #[trigger] order@[i] as int),
{
    let mut at: usize = order.len();
    while at > 0
        invariant_except_break
            forall|i: int|
                at <= i < order@.len() ==> comes_before(
                    keys@,
                    p as int,
                    #[trigger] order@[i] as int,
                ),
        invariant
            at <= order@.len(),
            p < keys@.len(),
            forall|i: int| 0 <= i < order@.len() ==> (#[trigger] order@[i]) < p,
            forall|i: int, j: int|
                0 <= i < j < order@.len() ==> comes_before(
                    keys@,
                    #[trigger] order@[i] as int,
                    #[trigger] order@[j] as int,
                ),
        ensures
            forall|i: int|
                0 <= i < at ==> comes_before(keys@, #[trigger] order@[i] as int, p as int),
            forall|i: int|
                at <= i < order@.len() ==> comes_before(
                    keys@,
                    p as int,
                    #[trigger] order@[i] as int,
                ),
        decreases at,
    {
        let q: usize = order[at - 1];
        let kq = keys[q];
        let kp = keys[p];
        let q_major: i64 = kq.major.order_rank();
        let p_major: i64 = kp.major.order_rank();
        let after = p_major < q_major || (p_major == q_major && kp.minor.order_rank()
            < kq.minor.order_rank());
        if !after {
            break;
        }
        at = at - 1;
    }
    at
}

/// The places of the picked items, sorted by key and then by place.
pub fn pick_in_order(keys: &Vec<SortKey>, picked: &Vec<bool>) -> (r: Vec<usize>)
    requires
        keys@.len() == picked@.len(),
    ensures
        picked_in_order(keys@, picked@, r@),
{
    let mut order: Vec<usize> = Vec::new();
    for p in 0..picked.len()
        invariant
            keys@.len() == picked@.len(),
            forall|i: int|
                0 <= i < order@.len() ==> (#[trigger] order@[i]) < p && picked@[order@[i] as int],
            forall|q: usize| q < p && #[trigger] picked@[q as int] ==> order@.contains(q),
            forall|i: int, j: int|
                0 <= i < j < order@.len() ==> comes_before(
                    keys@,
                    #[trigger] order@[i] as int,
                    #[trigger] order@[j] as int,
                ),
    {
        if picked[p] {
            let ghost before = order@;
            let at: usize = slot_for(keys, &order, p);
            order.insert(at, p);
            assert(order@ == before.insert(at as int, p));
            assert forall|q: usize| q < p + 1 && #[trigger] picked@[q as int] implies order@.contains(
                q,
            ) by {
                if q == p {
                    assert(order@[at as int] == p);
                } else {
                    assert(before.contains(q));
                    let i = choose|i: int| 0 <= i < before.len() && before[i] == q;
                    assert(order@[if i < at {
                        i
                    } else {
                        i + 1
                    }] == q);
                }
            }
        }
    }
    order
}

/// What is picked and how it is keyed leave no choice of the order.
pub proof fn law_order_is_determined(
    keys: Seq<SortKey>,
    picked: Seq<bool>,
    a: Seq<usize>,
    b: Seq<usize>,
)
    requires
        keys.len() == picked.len(),
        picked_in_order(keys, picked, a),
        picked_in_order(keys, picked, b),
    ensures
        a == b,
    decreases a.len(),
{
    if a.len() == 0 {
        if b.len() > 0 {
            assert(a.contains(b[0]));
        }
    } else {
        assert(b.contains(a[0]));
        assert(a.contains(b[0]));
        let i = choose|i: int| 0 <= i < b.len() && b[i] == a[0];
        let j = choose|j: int| 0 <= j < a.len() && a[j] == b[0];
        assert(a[0] == b[0]);
        let rest = picked.update(a[0] as int, false);
        let ta = a.skip(1);
        let tb = b.skip(1);
        lemma_without_first(keys, picked, a);
        lemma_without_first(keys, picked, b);
        law_order_is_determined(keys, rest, ta, tb);
        assert(a =~= seq![a[0]] + ta);
        assert(b =~= seq![b[0]] + tb);
    }
}

proof fn lemma_without_first(keys: Seq<SortKey>, picked: Seq<bool>, a: Seq<usize>)
    requires
        keys.len() == picked.len(),
        picked_in_order(keys, picked, a),
        a.len() > 0,
    ensures
        picked_in_order(keys, picked.update(a[0] as int, false), a.skip(1)),
{
    let rest = picked.update(a[0] as int, false);
    let t = a.skip(1);
    assert forall|i: int| 0 <= i < t.len() implies (#[trigger] t[i]) < rest.len()
        && rest[t[i] as int] by {
        assert(t[i] == a[i + 1]);
        assert(comes_before(keys, a[0] as int, a[i + 1] as int));
    }
    assert forall|p: usize| p < rest.len() && #[trigger] rest[p as int] implies t.contains(p) by {
        assert(picked[p as int]);
        assert(a.contains(p));
        let i = choose|i: int| 0 <= i < a.len() && a[i] == p;
        assert(t[i - 1] == p);
    }
    assert forall|i: int, j: int| 0 <= i < j < t.len() implies comes_before(
        keys,
        #[trigger] t[i] as int,
        #[trigger] t[j] as int,
    ) by {
        assert(t[i] == a[i + 1] && t[j] == a[j + 1]);
    }
}

/// Keys by which retaining walls are listed: by z, then by x.
pub open spec fn retaining_keys(walls: Seq<MeasuredWall>) -> Seq<SortKey> {
    walls.map_values(|w: MeasuredWall| SortKey { major: w.z0, minor: w.x0 })
}

/// Which walls are retaining walls.
pub open spec fn retaining_flags(walls: Seq<MeasuredWall>) -> Seq<bool> {
    walls.map_values(|w: MeasuredWall| w.retaining())
}

/// The retaining walls, as places in the list of walls, by z and then by x.
pub fn classify_retaining_walls(walls: &Vec<MeasuredWall>) -> (r: Vec<usize>)
    ensures
        picked_in_order(retaining_keys(walls@), retaining_flags(walls@), r@),
{
    let mut keys: Vec<SortKey> = Vec::new();
    let mut picked: Vec<bool> = Vec::new();
    for i in 0..walls.len()
        invariant
            keys@ == retaining_keys(walls@).take(i as int),
            picked@ == retaining_flags(walls@).take(i as int),
    {
        let w = &walls[i];
        keys.push(SortKey { major: w.z0, minor: w.x0 });
        picked.push(is_retaining_wall(w));
        assert(keys@ =~= retaining_keys(walls@).take(i + 1));
        assert(picked@ =~= retaining_flags(walls@).take(i + 1));
    }
    assert(keys@ =~= retaining_keys(walls@));
    assert(picked@ =~= retaining_flags(walls@));
    pick_in_order(&keys, &picked)
}

// ---- stair runs ---------------------------------------------------------------

/// The ground a stair covers, and its height.
#[derive(Clone, Copy, Debug, PartialEq, Eq, Structural)]
pub struct StairRun {
    pub x0: F32,
    pub x1: F32,
    pub z0: F32,
    pub z1: F32,
    pub y1: F32,
}

/// The lesser of two numbers; the first where neither is less.
pub open spec fn lesser(a: F32, b: F32) -> F32 {
    if b.below(a) {
        b
    } else {
        a
    }
}

/// The greater of two numbers; the first where neither is greater.
pub open spec fn greater(a: F32, b: F32) -> F32 {
    if a.below(b) {
        b
    } else {
        a
    }
}

fn min_of(a: F32, b: F32) -> (r: F32)
    ensures
        r == lesser(a, b),
{
    if b.lt(a) {
        b
    } else {
        a
    }
}

fn max_of(a: F32, b: F32) -> (r: F32)
    ensures
        r == greater(a, b),
{
    if a.lt(b) {
        b
    } else {
        a
    }
}

/// Keys by which steps are listed: by their middle, then by z.
pub open spec fn stair_keys(walls: Seq<MeasuredWall>) -> Seq<SortKey> {
    walls.map_values(|w: MeasuredWall| SortKey { major: w.mid, minor: w.z0 })
}

/// Which walls are steps.
pub open spec fn stair_flags(walls: Seq<MeasuredWall>) -> Seq<bool> {
    walls.map_values(|w: MeasuredWall| w.step())
}

/// The bounds of the steps `i..j` of the list.
pub open spec fn run_bounds(
    walls: Seq<MeasuredWall>,
    order: Seq<usize>,
    i: int,
    j: int,
) -> StairRun
    decreases j - i,
{
    let w = walls[order[j - 1] as int];
    if j <= i + 1 {
        StairRun { x0: w.x0, x1: w.x1, z0: w.z0, z1: w.z1, y1: w.y1 }
    } else {
        let b = run_bounds(walls, order, i, j - 1);
        StairRun {
            x0: lesser(b.x0, w.x0),
            x1: greater(b.x1, w.x1),
            z0: lesser(b.z0, w.z0),
            z1: greater(b.z1, w.z1),
            y1: greater(b.y1, w.y1),
        }
    }
}

/// How far along z the steps `i..j` reach, gap included.
pub open spec fn run_reach(walls: Seq<MeasuredWall>, order: Seq<usize>, i: int, j: int) -> F32
    decreases j - i,
{
    let w = walls[order[j - 1] as int];
    if j <= i + 1 {
        w.reach
    } else {
        greater(run_reach(walls, order, i, j - 1), w.reach)
    }
}

/// Step `j` continues the run that began with step `i`: it is as wide as the
/// first, and close enough behind what the run covers so far.
pub open spec fn joins(
    walls: Seq<MeasuredWall>,
    aligned: Seq<Vec<bool>>,
    order: Seq<usize>,
    i: int,
    j: int,
) -> bool {
    &&& aligned[order[i] as int]@[order[j] as int]
    &&& !run_reach(walls, order, i, j).below(walls[order[j] as int].z0)
}

/// The end of the run that began with step `i` and covers the steps up to `j`.
pub open spec fn run_end(
    walls: Seq<MeasuredWall>,
    aligned: Seq<Vec<bool>>,
    order: Seq<usize>,
    i: int,
    j: int,
) -> int
    decreases order.len() - j,
{
    if j < order.len() && joins(walls, aligned, order, i, j) {
        run_end(walls, aligned, order, i, j + 1)
    } else {
        j
    }
}

/// The runs of at least two steps, from step `i` on.
pub open spec fn runs_from(
    walls: Seq<MeasuredWall>,
    aligned: Seq<Vec<bool>>,
    order: Seq<usize>,
    i: int,
) -> Seq<StairRun>
    decreases order.len() - i,
{
    let j = run_end(walls, aligned, order, i, i + 1);
    if i >= order.len() || !(i < j <= order.len()) {
        Seq::empty()
    } else if j - i >= 2 {
        seq![run_bounds(walls, order, i, j)] + runs_from(walls, aligned, order, j)
    } else {
        runs_from(walls, aligned, order, j)
    }
}

proof fn lemma_run_advances(
    walls: Seq<MeasuredWall>,
    aligned: Seq<Vec<bool>>,
    order: Seq<usize>,
    i: int,
    j: int,
)
    requires
        j <= order.len(),
    ensures
        j <= run_end(walls, aligned, order, i, j) <= order.len(),
    decreases order.len() - j,
{
    if j < order.len() && joins(walls, aligned, order, i, j) {
        lemma_run_advances(walls, aligned, order, i, j + 1);
    }
}

/// The run that begins with step `i`: where it ends and what it covers.
fn scan_run(
    walls: &Vec<MeasuredWall>,
    aligned: &Vec<Vec<bool>>,
    order: &Vec<usize>,
    i: usize,
) -> (r: (usize, StairRun))
    requires
        i < order@.len(),
        aligned@.len() == walls@.len(),
        forall|k: int| 0 <= k < aligned@.len() ==> (#[trigger] aligned@[k])@.len() == walls@.len(),
        forall|k: int| 0 <= k < order@.len() ==> (#[trigger] order@[k]) < walls@.len(),
    ensures
        r.0 == run_end(walls@, aligned@, order@, i as int, i + 1),
        r.1 == run_bounds(walls@, order@, i as int, r.0 as int),
        i < r.0 <= order@.len(),
{
    let n: usize = order.len();
    let first: usize = order[i];
    let s0 = walls[first];
    let mut run = StairRun { x0: s0.x0, x1: s0.x1, z0: s0.z0, z1: s0.z1, y1: s0.y1 };
    let mut reach = s0.reach;
    let mut j: usize = i + 1;
    while j < n && aligned[first][order[j]] && !reach.lt(walls[order[j]].z0)
        invariant
            n == order@.len(),
            i < j <= order@.len(),
            first == order@[i as int],
            aligned@.len() == walls@.len(),
            forall|k: int|
                0 <= k < aligned@.len() ==> (#[trigger] aligned@[k])@.len() == walls@.len(),
            forall|k: int| 0 <= k < order@.len() ==> (#[trigger] order@[k]) < walls@.len(),
            run == run_bounds(walls@, order@, i as int, j as int),
            reach == run_reach(walls@, order@, i as int, j as int),
            run_end(walls@, aligned@, order@, i as int, i + 1) == run_end(
                walls@,
                aligned@,
                order@,
                i as int,
                j as int,
            ),
        decreases order@.len() - j,
    {
        assert(joins(walls@, aligned@, order@, i as int, j as int));
        let s = walls[order[j]];
        run = StairRun {
            x0: min_of(run.x0, s.x0),
            x1: max_of(run.x1, s.x1),
            z0: min_of(run.z0, s.z0),
            z1: max_of(run.z1, s.z1),
            y1: max_of(run.y1, s.y1),
        };
        reach = max_of(reach, s.reach);
        j = j + 1;
    }
    (j, run)
}

/// Groups the steps among the walls into stairs. `aligned` says of each pair of
/// walls whether their middles and both their sides are within 0.6 of each
/// other along x.
pub fn classify_stair_runs(walls: &Vec<MeasuredWall>, aligned: &Vec<Vec<bool>>) -> (r: Vec<
    StairRun,
>)
    requires
        aligned@.len() == walls@.len(),
        forall|k: int| 0 <= k < aligned@.len() ==> (#[trigger] aligned@[k])@.len() == walls@.len(),
    ensures
        exists|order: Seq<usize>|
            #![trigger runs_from(walls@, aligned@, order, 0)]
            picked_in_order(stair_keys(walls@), stair_flags(walls@), order) && r@ == runs_from(
                walls@,
                aligned@,
                order,
                0,
            ),
{
    let mut keys: Vec<SortKey> = Vec::new();
    let mut picked: Vec<bool> = Vec::new();
    for i in 0..walls.len()
        invariant
            keys@ == stair_keys(walls@).take(i as int),
            picked@ == stair_flags(walls@).take(i as int),
    {
        let w = &walls[i];
        keys.push(SortKey { major: w.mid, minor: w.z0 });
        picked.push(is_stair_step(w));
        assert(keys@ =~= stair_keys(walls@).take(i + 1));
        assert(picked@ =~= stair_flags(walls@).take(i + 1));
    }
    assert(keys@ =~= stair_keys(walls@));
    assert(picked@ =~= stair_flags(walls@));
    let order = pick_in_order(&keys, &picked);
    let mut runs: Vec<StairRun> = Vec::new();
    let mut i: usize = 0;
    assert(runs@ + runs_from(walls@, aligned@, order@, 0) =~= runs_from(
        walls@,
        aligned@,
        order@,
        0,
    ));
    while i < order.len()
        invariant
            i <= order@.len(),
            aligned@.len() == walls@.len(),
            forall|k: int|
                0 <= k < aligned@.len() ==> (#[trigger] aligned@[k])@.len() == walls@.len(),
            forall|k: int| 0 <= k < order@.len() ==> (#[trigger] order@[k]) < walls@.len(),
            runs@ + runs_from(walls@, aligned@, order@, i as int) == runs_from(
                walls@,
                aligned@,
                order@,
                0,
            ),
        decreases order@.len() - i,
    {
        let (j, run) = scan_run(walls, aligned, &order, i);
        let ghost before = runs@;
        let ghost rest = runs_from(walls@, aligned@, order@, j as int);
        if j - i >= 2 {
            runs.push(run);
            assert(runs@ + rest =~= before + (seq![run] + rest));
        }
        i = j;
    }
    assert(runs_from(walls@, aligned@, order@, i as int) =~= Seq::<StairRun>::empty());
    assert(runs@ =~= runs_from(walls@, aligned@, order@, 0));
    runs
}

/// Every stair takes at least two steps, and no step serves two stairs.
pub proof fn law_stairs_take_two_steps_each(
    walls: Seq<MeasuredWall>,
    aligned: Seq<Vec<bool>>,
    order: Seq<usize>,
    i: int,
)
    requires
        0 <= i <= order.len(),
    ensures
        2 * runs_from(walls, aligned, order, i).len() <= order.len() - i,
    decreases order.len() - i,
{
    if i < order.len() {
        let j = run_end(walls, aligned, order, i, i + 1);
        lemma_run_advances(walls, aligned, order, i, i + 1);
        law_stairs_take_two_steps_each(walls, aligned, order, j);
    }
}

/// A stair covers each of its steps.
pub proof fn law_stairs_cover_their_steps(
    walls: Seq<MeasuredWall>,
    order: Seq<usize>,
    i: int,
    j: int,
    k: int,
)
    requires
        0 <= i <= k < j <= order.len(),
        forall|n: int|
            i <= n < j ==> {
                let w = #[trigger] walls[order[n] as int];
                !w.x0.nan() && !w.x1.nan() && !w.z0.nan() && !w.z1.nan() && !w.y1.nan()
            },
    ensures
        ({
            let b = run_bounds(walls, order, i, j);
            let w = walls[order[k] as int];
            &&& b.x0.at_most(w.x0) && w.x1.at_most(b.x1)
            &&& b.z0.at_most(w.z0) && w.z1.at_most(b.z1)
            &&& w.y1.at_most(b.y1)
        }),
    decreases j - i,
{
    assert(!walls[order[j - 1] as int].x0.nan());
    if j > i + 1 {
        law_stairs_cover_their_steps(walls, order, i, j - 1, i);
        if k < j - 1 {
            law_stairs_cover_their_steps(walls, order, i, j - 1, k);
        }
    }
}

// ---- faces --------------------------------------------------------------------

/// Three corners, in order.
#[derive(Debug, PartialEq, Eq)]
pub struct Tri<P> {
    pub a: P,
    pub b: P,
    pub c: P,
}

impl<P: Copy> Copy for Tri<P> {

}

impl<P: Copy> Clone for Tri<P> {
    fn clone(&self) -> (r: Self)
        ensures
            r == *self,
    {
        *self
    }
}

/// The same corners, wound the other way from the first.
pub open spec fn flipped<P>(q: Quad<P>) -> Quad<P> {
    Quad { a: q.a, b: q.d, c: q.c, d: q.b }
}

/// The corners as they stand where their winding faces outward, and flipped
/// where it does not.
pub open spec fn outward<P>(q: Quad<P>, agrees: bool) -> Quad<P> {
    if agrees {
        q
    } else {
        flipped(q)
    }
}

/// Orders four corners so that their winding faces outward. `agrees` says
/// whether it already does.
pub fn order_quad_outward<P: Copy>(corners: Quad<P>, agrees: bool) -> (r: Quad<P>)
    ensures
        r == outward(corners, agrees),
{
    if agrees {
        corners
    } else {
        Quad { a: corners.a, b: corners.d, c: corners.c, d: corners.b }
    }
}

/// Both triangles of a face run counterclockwise as seen against a direction.
pub open spec fn looks_along(q: Quad<P3<int>>, n: P3<int>) -> bool {
    &&& crate::map_render::turn_along(q.a, q.b, q.c, n) > 0
    &&& crate::map_render::turn_along(q.a, q.c, q.d, n) > 0
}

/// Ordering a face by whether it agrees with a direction makes it look that way:
/// the triangle over its first three corners does, and so does the other one
/// where the two turn alike, as those of a flat face without a dent do.
pub proof fn law_ordered_faces_look_outward(q: Quad<P3<int>>, n: P3<int>, agrees: bool)
    requires
        crate::map_render::turn_along(q.a, q.b, q.c, n) != 0,
        agrees == (crate::map_render::turn_along(q.a, q.b, q.c, n) > 0),
    ensures
        ({
            let o = outward(q, agrees);
            let other = crate::map_render::turn_along(q.a, q.c, q.d, n);
            &&& agrees ==> crate::map_render::turn_along(o.a, o.b, o.c, n) > 0
            &&& !agrees ==> crate::map_render::turn_along(o.a, o.c, o.d, n) > 0
            &&& other != 0 && agrees == (other > 0) ==> looks_along(o, n)
        }),
{
    lemma_turn_reverses(q.a, q.b, q.c, n);
    lemma_turn_reverses(q.a, q.c, q.d, n);
}

/// Swapping two corners of a triangle turns it the other way.
proof fn lemma_turn_reverses(a: P3<int>, b: P3<int>, c: P3<int>, n: P3<int>)
    ensures
        crate::map_render::turn_along(a, c, b, n) == -crate::map_render::turn_along(a, b, c, n),
        crate::map_render::turn_along(b, a, c, n) == -crate::map_render::turn_along(a, b, c, n),
{
    let (bx, by, bz) = (b.x - a.x, b.y - a.y, b.z - a.z);
    let (cx, cy, cz) = (c.x - a.x, c.y - a.y, c.z - a.z);
    lemma_area_reverses(n.x, by, bz, cy, cz);
    lemma_area_reverses(n.y, bz, bx, cz, cx);
    lemma_area_reverses(n.z, bx, by, cx, cy);
}

proof fn lemma_area_reverses(n: int, b0: int, b1: int, c0: int, c1: int)
    by (nonlinear_arith)
    ensures
        n * (c0 * b1 - c1 * b0) == -(n * (b0 * c1 - b1 * c0)),
        n * ((-b0) * (c1 - b1) - (-b1) * (c0 - b0)) == -(n * (b0 * c1 - b1 * c0)),
{
}

/// Flipping keeps the corners and undoes itself.
pub proof fn law_flipping_keeps_corners<P>(q: Quad<P>)
    ensures
        flipped(flipped(q)) == q,
        flipped(q).items().to_multiset() == q.items().to_multiset(),
{
    let a = q.items();
    let b = flipped(q).items();
    assert(a =~= seq![q.a] + seq![q.b] + seq![q.c] + seq![q.d]);
    assert(b =~= seq![q.a] + seq![q.d] + seq![q.c] + seq![q.b]);
    vstd::seq_lib::lemma_multiset_commutative(seq![q.a] + seq![q.b] + seq![q.c], seq![q.d]);
    vstd::seq_lib::lemma_multiset_commutative(seq![q.a] + seq![q.b], seq![q.c]);
    vstd::seq_lib::lemma_multiset_commutative(seq![q.a], seq![q.b]);
    vstd::seq_lib::lemma_multiset_commutative(seq![q.a] + seq![q.d] + seq![q.c], seq![q.b]);
    vstd::seq_lib::lemma_multiset_commutative(seq![q.a] + seq![q.d], seq![q.c]);
    vstd::seq_lib::lemma_multiset_commutative(seq![q.a], seq![q.d]);
    assert(a.to_multiset() =~= b.to_multiset());
}

/// The mesh with one more triangle, untextured.
pub open spec fn with_triangle<T>(
    g: GeomView<T>,
    t: Tri<P3<T>>,
    normal: P3<T>,
    zero: T,
) -> GeomView<T> {
    let base = g.positions.len();
    let origin = P2 { u: zero, v: zero };
    GeomView {
        positions: g.positions + seq![t.a, t.b, t.c],
        normals: g.normals + seq![normal, normal, normal],
        uvs: g.uvs + seq![origin, origin, origin],
        indices: g.indices + seq![base as u32, (base + 1) as u32, (base + 2) as u32],
        colors: g.colors,
    }
}

/// Appends a triangle.
pub fn push_triangle<T: Copy>(geom: &mut MeshGeom<T>, t: Tri<P3<T>>, normal: P3<T>, zero: T)
    requires
        old(geom).sound(),
        old(geom).positions@.len() + 3 <= u32::MAX,
    ensures
        final(geom).sound(),
        final(geom)@ == with_triangle(old(geom)@, t, normal, zero),
{
    let base: u32 = geom.positions.len() as u32;
    let origin = P2 { u: zero, v: zero };
    geom.positions.push(t.a);
    geom.positions.push(t.b);
    geom.positions.push(t.c);
    geom.normals.push(normal);
    geom.normals.push(normal);
    geom.normals.push(normal);
    geom.uvs.push(origin);
    geom.uvs.push(origin);
    geom.uvs.push(origin);
    geom.indices.push(base);
    geom.indices.push(base + 1);
    geom.indices.push(base + 2);
    assert(geom@ =~= with_triangle(old(geom)@, t, normal, zero));
    assert forall|i: int| 0 <= i < geom.indices@.len() implies #[trigger] geom.indices@[i]
        < geom.positions@.len() by {
        if i < old(geom).indices@.len() {
            assert(geom.indices@[i] == old(geom).indices@[i]);
        }
    }
}

/// The normals of a face and of the face flipped; absent where the corners span
/// no area.
#[derive(Debug, PartialEq, Eq)]
pub struct QuadFit<T> {
    pub normal: Option<P3<T>>,
    pub flipped: Option<P3<T>>,
}

/// The mesh with one more face: as it stands, else flipped, else not at all.
pub open spec fn with_auto_quad<T>(
    g: GeomView<T>,
    corners: Quad<P3<T>>,
    fit: QuadFit<T>,
    uvs: Quad<P2<T>>,
) -> GeomView<T> {
    match (fit.normal, fit.flipped) {
        (Some(n), _) => crate::map_render::with_face(g, corners, n, uvs),
        (None, Some(n)) => crate::map_render::with_face(g, flipped(corners), n, uvs),
        (None, None) => g,
    }
}

/// Appends a face whose normal follows from its winding; one without area is
/// left out.
pub fn push_quad_auto<T: Copy>(
    geom: &mut MeshGeom<T>,
    corners: Quad<P3<T>>,
    fit: &QuadFit<T>,
    uvs: Quad<P2<T>>,
)
    requires
        old(geom).sound(),
        old(geom).positions@.len() + 4 <= u32::MAX,
    ensures
        final(geom).sound(),
        final(geom)@ == with_auto_quad(old(geom)@, corners, *fit, uvs),
{
    if let Some(n) = fit.normal {
        geom.push_face(corners, n, uvs);
    } else if let Some(n) = fit.flipped {
        geom.push_face(order_quad_outward(corners, false), n, uvs);
    }
}

/// The mesh with one more triangle, or without where it has no area.
pub open spec fn with_auto_triangle<T>(
    g: GeomView<T>,
    t: Tri<P3<T>>,
    normal: Option<P3<T>>,
    zero: T,
) -> GeomView<T> {
    match normal {
        Some(n) => with_triangle(g, t, n, zero),
        None => g,
    }
}

/// Appends a triangle whose normal follows from its winding; one without area
/// is left out.
pub fn push_triangle_auto<T: Copy>(
    geom: &mut MeshGeom<T>,
    t: Tri<P3<T>>,
    normal: &Option<P3<T>>,
    zero: T,
)
    requires
        old(geom).sound(),
        old(geom).positions@.len() + 3 <= u32::MAX,
    ensures
        final(geom).sound(),
        final(geom)@ == with_auto_triangle(old(geom)@, t, *normal, zero),
{
    if let Some(n) = *normal {
        push_triangle(geom, t, n, zero);
    }
}

/// The mesh with one more face of a single colour, untextured.
pub open spec fn with_colored_face<T>(
    g: GeomView<T>,
    corners: Quad<P3<T>>,
    normal: P3<T>,
    color: Rgba<T>,
    zero: T,
) -> GeomView<T> {
    let face = crate::map_render::with_face(
        g,
        corners,
        normal,
        crate::map_render::face_uvs(zero, zero, zero),
    );
    GeomView { colors: g.colors + crate::map_render::four(color), ..face }
}

/// Appends a face of a single colour.
pub fn push_face_colored<T: Copy>(
    geom: &mut MeshGeom<T>,
    corners: Quad<P3<T>>,
    normal: P3<T>,
    color: Rgba<T>,
    zero: T,
)
    requires
        old(geom).sound(),
        old(geom).positions@.len() + 4 <= u32::MAX,
    ensures
        final(geom).sound(),
        final(geom)@ == with_colored_face(old(geom)@, corners, normal, color, zero),
{
    geom.push_face(corners, normal, make_uvs(zero, zero, zero));
    geom.colors.push(color);
    geom.colors.push(color);
    geom.colors.push(color);
    geom.colors.push(color);
    assert(geom.colors@ =~= old(geom).colors@ + crate::map_render::four(color));
}

// ---- slopes -------------------------------------------------------------------

/// Bit pattern of 0.05: a slope with a lesser extent is not built.
pub const SLOPE_MIN_BITS: u32 = 0x3d4c_cccd;

/// A slope is worth building.
pub open spec fn slope_shows(width: F32, depth: F32, height: F32) -> bool {
    let least = F32 { bits: SLOPE_MIN_BITS };
    !width.below(least) && !depth.below(least) && !height.below(least)
}

fn is_slope_shown(width: F32, depth: F32, height: F32) -> (r: bool)
    ensures
        r == slope_shows(width, depth, height),
{
    let least = F32::from_bits(SLOPE_MIN_BITS);
    !width.lt(least) && !depth.lt(least) && !height.lt(least)
}

/// The faces of a slope against a wall: the ramp, its two end caps and the side
/// against the wall.
#[derive(Debug, PartialEq, Eq)]
pub struct RampWedge<T> {
    pub top: Quad<P3<T>>,
    pub west: Tri<P3<T>>,
    pub east: Tri<P3<T>>,
    pub back: Quad<P3<T>>,
}

/// Where a slope lies: from `x0` to `x1`, at `y_high` along `z_high` and at
/// `y_low` along `z_low`.
#[derive(Debug, PartialEq, Eq)]
pub struct RampSite<T> {
    pub x0: T,
    pub x1: T,
    pub z_high: T,
    pub z_low: T,
    pub y_high: T,
    pub y_low: T,
    pub ground: T,
}

/// The corners of a slope's faces.
pub open spec fn wedge_of<T>(s: RampSite<T>) -> RampWedge<T> {
    let a = P3 { x: s.x0, y: s.y_high, z: s.z_high };
    let b = P3 { x: s.x1, y: s.y_high, z: s.z_high };
    let c = P3 { x: s.x1, y: s.y_low, z: s.z_low };
    let d = P3 { x: s.x0, y: s.y_low, z: s.z_low };
    let a0 = P3 { x: s.x0, y: s.ground, z: s.z_high };
    let b0 = P3 { x: s.x1, y: s.ground, z: s.z_high };
    RampWedge {
        top: Quad { a, b, c, d },
        west: Tri { a, b: d, c: a0 },
        east: Tri { a: b, b: b0, c },
        back: Quad { a: a0, b: b0, c: b, d: a },
    }
}

/// Lays out a slope's faces.
pub fn ramp_wedge<T: Copy>(s: &RampSite<T>) -> (r: RampWedge<T>)
    ensures
        r == wedge_of(*s),
{
    let a = P3 { x: s.x0, y: s.y_high, z: s.z_high };
    let b = P3 { x: s.x1, y: s.y_high, z: s.z_high };
    let c = P3 { x: s.x1, y: s.y_low, z: s.z_low };
    let d = P3 { x: s.x0, y: s.y_low, z: s.z_low };
    let a0 = P3 { x: s.x0, y: s.ground, z: s.z_high };
    let b0 = P3 { x: s.x1, y: s.ground, z: s.z_high };
    RampWedge {
        top: Quad { a, b, c, d },
        west: Tri { a, b: d, c: a0 },
        east: Tri { a: b, b: b0, c },
        back: Quad { a: a0, b: b0, c: b, d: a },
    }
}

/// What is measured of a slope: its extents, its faces' normals and its texture
/// extents.
#[derive(Debug, PartialEq, Eq)]
pub struct RampFit<T> {
    pub width: F32,
    pub depth: F32,
    pub height: F32,
    pub top: QuadFit<T>,
    pub west: Option<P3<T>>,
    pub east: Option<P3<T>>,
    pub back: QuadFit<T>,
    pub u_width: T,
    pub v_depth: T,
    pub v_height: T,
}

/// The mesh with a slope's four faces, or without where there is no slope.
pub open spec fn with_wedge<T>(
    g: GeomView<T>,
    w: RampWedge<T>,
    fit: RampFit<T>,
    zero: T,
) -> GeomView<T> {
    if !slope_shows(fit.width, fit.depth, fit.height) {
        g
    } else {
        let top_uvs = crate::map_render::face_uvs(fit.u_width, fit.v_depth, zero);
        let back_uvs = crate::map_render::face_uvs(fit.u_width, fit.v_height, zero);
        let g1 = with_auto_quad(g, w.top, fit.top, top_uvs);
        let g2 = with_auto_triangle(g1, w.west, fit.west, zero);
        let g3 = with_auto_triangle(g2, w.east, fit.east, zero);
        with_auto_quad(g3, w.back, fit.back, back_uvs)
    }
}

/// Appends a slope against a wall.
pub fn append_ramp_wedge<T: Copy>(
    geom: &mut MeshGeom<T>,
    w: &RampWedge<T>,
    fit: &RampFit<T>,
    zero: T,
)
    requires
        old(geom).sound(),
        old(geom).positions@.len() + 14 <= u32::MAX,
    ensures
        final(geom).sound(),
        final(geom)@ == with_wedge(old(geom)@, *w, *fit, zero),
{
    if !is_slope_shown(fit.width, fit.depth, fit.height) {
        return ;
    }
    push_quad_auto(geom, w.top, &fit.top, make_uvs(fit.u_width, fit.v_depth, zero));
    push_triangle_auto(geom, w.west, &fit.west, zero);
    push_triangle_auto(geom, w.east, &fit.east, zero);
    push_quad_auto(geom, w.back, &fit.back, make_uvs(fit.u_width, fit.v_height, zero));
}

/// The high and the low edge of a slope beside a stair, along x. The high edge
/// is the one at the stair.
pub fn side_ramp_edges(x_a: F32, x_b: F32, high_on_right: bool) -> (r: (F32, F32))
    ensures
        r == (if high_on_right {
            (greater(x_b, x_a), lesser(x_a, x_b))
        } else {
            (lesser(x_a, x_b), greater(x_b, x_a))
        }),
{
    if high_on_right {
        (max_of(x_b, x_a), min_of(x_a, x_b))
    } else {
        (min_of(x_a, x_b), max_of(x_b, x_a))
    }
}

/// The corners of a slope beside a stair, wound so that it faces up. `upward`
/// says whether the plain order already does.
pub fn side_ramp<T: Copy>(
    x_high: T,
    x_low: T,
    y_high: T,
    ground: T,
    z0: T,
    z1: T,
    upward: bool,
) -> (r: Quad<P3<T>>)
    ensures
        r == outward(
            (Quad {
                a: P3 { x: x_high, y: y_high, z: z0 },
                b: P3 { x: x_high, y: y_high, z: z1 },
                c: P3 { x: x_low, y: ground, z: z1 },
                d: P3 { x: x_low, y: ground, z: z0 },
            }),
            upward,
        ),
{
    order_quad_outward(
        Quad {
            a: P3 { x: x_high, y: y_high, z: z0 },
            b: P3 { x: x_high, y: y_high, z: z1 },
            c: P3 { x: x_low, y: ground, z: z1 },
            d: P3 { x: x_low, y: ground, z: z0 },
        },
        upward,
    )
}

/// Appends a slope beside a stair where it is worth building. `depth` runs along
/// the stair, `width` away from it.
pub fn append_side_ramp<T: Copy>(
    geom: &mut MeshGeom<T>,
    corners: Quad<P3<T>>,
    fit: &QuadFit<T>,
    width: F32,
    depth: F32,
    height: F32,
    uvs: Quad<P2<T>>,
)
    requires
        old(geom).sound(),
        old(geom).positions@.len() + 4 <= u32::MAX,
    ensures
        final(geom).sound(),
        final(geom)@ == (if slope_shows(width, depth, height) {
            with_auto_quad(old(geom)@, corners, *fit, uvs)
        } else {
            old(geom)@
        }),
{
    if is_slope_shown(width, depth, height) {
        push_quad_auto(geom, corners, fit, uvs);
    }
}

// ---- pine and rock meshes -------------------------------------------------------

/// Number of needle layers of a pine: two or three by turns.
pub fn pine_layers(salt: u32) -> (r: u32)
    ensures
        r == 2 + salt % 2,
{
    2 + salt % 2
}

/// Number of sides of a round shape: at least three.
pub fn ring_sides(sides: u32) -> (r: u32)
    ensures
        r == (if sides < 3 {
            3
        } else {
            sides as int
        }),
{
    if sides < 3 {
        3
    } else {
        sides
    }
}

/// Where a far pine stands: its middle, its edges along x and z, its foot and
/// its top.
#[derive(Debug, PartialEq, Eq)]
pub struct CrossSite<T> {
    pub x: T,
    pub z: T,
    pub x_lo: T,
    pub x_hi: T,
    pub z_lo: T,
    pub z_hi: T,
    pub foot: T,
    pub top: T,
}

/// The panel of a far pine across x.
pub open spec fn cross_x<T>(s: CrossSite<T>) -> Quad<P3<T>> {
    Quad {
        a: P3 { x: s.x_lo, y: s.foot, z: s.z },
        b: P3 { x: s.x_hi, y: s.foot, z: s.z },
        c: P3 { x: s.x_hi, y: s.top, z: s.z },
        d: P3 { x: s.x_lo, y: s.top, z: s.z },
    }
}

/// The panel of a far pine across z.
pub open spec fn cross_z<T>(s: CrossSite<T>) -> Quad<P3<T>> {
    Quad {
        a: P3 { x: s.x, y: s.foot, z: s.z_hi },
        b: P3 { x: s.x, y: s.foot, z: s.z_lo },
        c: P3 { x: s.x, y: s.top, z: s.z_lo },
        d: P3 { x: s.x, y: s.top, z: s.z_hi },
    }
}

/// A panel seen from behind: left and right change places.
pub open spec fn seen_from_behind<P>(q: Quad<P>) -> Quad<P> {
    Quad { a: q.b, b: q.a, c: q.d, d: q.c }
}

/// The mesh with a far pine: two crossed panels, each with a front and a back.
pub open spec fn with_cross<T>(
    g: GeomView<T>,
    s: CrossSite<T>,
    u: Units<T>,
    uvs: Quad<P2<T>>,
) -> GeomView<T> {
    let z = u.zero;
    let g1 = crate::map_render::with_face(g, cross_x(s), P3 { x: z, y: z, z: u.one }, uvs);
    let g2 = crate::map_render::with_face(
        g1,
        seen_from_behind(cross_x(s)),
        P3 { x: z, y: z, z: u.minus_one },
        uvs,
    );
    let g3 = crate::map_render::with_face(g2, cross_z(s), P3 { x: u.one, y: z, z }, uvs);
    crate::map_render::with_face(
        g3,
        seen_from_behind(cross_z(s)),
        P3 { x: u.minus_one, y: z, z },
        uvs,
    )
}

fn back_of<P: Copy>(q: Quad<P>) -> (r: Quad<P>)
    ensures
        r == seen_from_behind(q),
{
    Quad { a: q.b, b: q.a, c: q.d, d: q.c }
}

/// Appends a far pine.
pub fn append_pine_billboard<T: Copy>(
    geom: &mut MeshGeom<T>,
    s: &CrossSite<T>,
    units: &Units<T>,
    uvs: Quad<P2<T>>,
)
    requires
        old(geom).sound(),
        old(geom).positions@.len() + 16 <= u32::MAX,
    ensures
        final(geom).sound(),
        final(geom)@ == with_cross(old(geom)@, *s, *units, uvs),
{
    let z = units.zero;
    let across_x = Quad {
        a: P3 { x: s.x_lo, y: s.foot, z: s.z },
        b: P3 { x: s.x_hi, y: s.foot, z: s.z },
        c: P3 { x: s.x_hi, y: s.top, z: s.z },
        d: P3 { x: s.x_lo, y: s.top, z: s.z },
    };
    let across_z = Quad {
        a: P3 { x: s.x, y: s.foot, z: s.z_hi },
        b: P3 { x: s.x, y: s.foot, z: s.z_lo },
        c: P3 { x: s.x, y: s.top, z: s.z_lo },
        d: P3 { x: s.x, y: s.top, z: s.z_hi },
    };
    geom.push_face(across_x, P3 { x: z, y: z, z: units.one }, uvs);
    geom.push_face(back_of(across_x), P3 { x: z, y: z, z: units.minus_one }, uvs);
    geom.push_face(across_z, P3 { x: units.one, y: z, z }, uvs);
    geom.push_face(back_of(across_z), P3 { x: units.minus_one, y: z, z }, uvs);
}

/// The sides of a round shape: points along its rims, one more than there are
/// sides, and for each side its normal and whether the plain winding faces
/// outward.
#[derive(Debug, PartialEq, Eq)]
pub struct Rim<T> {
    pub lower: Vec<P3<T>>,
    pub upper: Vec<P3<T>>,
    pub normals: Vec<P3<T>>,
    pub agrees: Vec<bool>,
}

impl<T> Rim<T> {
    /// Number of sides.
    pub open spec fn sides(self) -> int {
        self.normals@.len() as int
    }

    pub open spec fn wf(self) -> bool {
        &&& self.lower@.len() == self.sides() + 1
        &&& self.upper@.len() == self.sides() + 1
        &&& self.agrees@.len() == self.sides()
    }

    /// The corners of side `k` of a cylinder.
    pub open spec fn panel(self, k: int) -> Quad<P3<T>> {
        outward(
            Quad {
                a: self.lower@[k],
                b: self.lower@[k + 1],
                c: self.upper@[k + 1],
                d: self.upper@[k],
            },
            self.agrees@[k],
        )
    }

    /// The corners of side `k` of a cone that ends in `apex`.
    pub open spec fn slant(self, apex: P3<T>, k: int) -> Tri<P3<T>> {
        if self.agrees@[k] {
            Tri { a: self.lower@[k], b: self.lower@[k + 1], c: apex }
        } else {
            Tri { a: self.lower@[k + 1], b: self.lower@[k], c: apex }
        }
    }
}

/// Ordering the side of a cone by whether it agrees with a direction makes it look
/// that way.
pub proof fn law_ordered_slants_look_outward(rim: Rim<int>, apex: P3<int>, k: int, n: P3<int>)
    requires
        crate::map_render::turn_along(rim.lower@[k], rim.lower@[k + 1], apex, n) != 0,
        rim.agrees@[k] == (crate::map_render::turn_along(
            rim.lower@[k],
            rim.lower@[k + 1],
            apex,
            n,
        ) > 0),
    ensures
        ({
            let t = rim.slant(apex, k);
            crate::map_render::turn_along(t.a, t.b, t.c, n) > 0
        }),
{
    lemma_turn_reverses(rim.lower@[k], rim.lower@[k + 1], apex, n);
}

/// The mesh with the first `k` sides of a cylinder.
pub open spec fn with_cylinder<T>(
    g: GeomView<T>,
    rim: Rim<T>,
    uvs: Quad<P2<T>>,
    k: int,
) -> GeomView<T>
    decreases k,
{
    if k <= 0 {
        g
    } else {
        crate::map_render::with_face(
            with_cylinder(g, rim, uvs, k - 1),
            rim.panel(k - 1),
            rim.normals@[k - 1],
            uvs,
        )
    }
}

/// Appends the sides of a cylinder.
pub fn append_cylinder<T: Copy>(geom: &mut MeshGeom<T>, rim: &Rim<T>, uvs: Quad<P2<T>>)
    requires
        rim.wf(),
        old(geom).sound(),
        old(geom).positions@.len() + 4 * rim.sides() <= u32::MAX,
    ensures
        final(geom).sound(),
        final(geom)@ == with_cylinder(old(geom)@, *rim, uvs, rim.sides()),
        final(geom).positions@.len() == old(geom).positions@.len() + 4 * rim.sides(),
{
    let ghost g0 = geom@;
    for k in 0..rim.normals.len()
        invariant
            rim.wf(),
            geom.sound(),
            g0.positions.len() + 4 * rim.sides() <= u32::MAX,
            geom.positions@.len() == g0.positions.len() + 4 * k,
            geom@ == with_cylinder(g0, *rim, uvs, k as int),
    {
        let corners = Quad {
            a: rim.lower[k],
            b: rim.lower[k + 1],
            c: rim.upper[k + 1],
            d: rim.upper[k],
        };
        geom.push_face(order_quad_outward(corners, rim.agrees[k]), rim.normals[k], uvs);
    }
}

/// The mesh with the first `k` sides of a cone.
pub open spec fn with_cone<T>(g: GeomView<T>, rim: Rim<T>, apex: P3<T>, zero: T, k: int) -> GeomView<
    T,
>
    decreases k,
{
    if k <= 0 {
        g
    } else {
        with_triangle(
            with_cone(g, rim, apex, zero, k - 1),
            rim.slant(apex, k - 1),
            rim.normals@[k - 1],
            zero,
        )
    }
}

/// Appends the sides of a cone over the lower rim.
pub fn append_cone<T: Copy>(geom: &mut MeshGeom<T>, rim: &Rim<T>, apex: P3<T>, zero: T)
    requires
        rim.wf(),
        old(geom).sound(),
        old(geom).positions@.len() + 3 * rim.sides() <= u32::MAX,
    ensures
        final(geom).sound(),
        final(geom)@ == with_cone(old(geom)@, *rim, apex, zero, rim.sides()),
        final(geom).positions@.len() == old(geom).positions@.len() + 3 * rim.sides(),
{
    let ghost g0 = geom@;
    for k in 0..rim.normals.len()
        invariant
            rim.wf(),
            geom.sound(),
            g0.positions.len() + 3 * rim.sides() <= u32::MAX,
            geom.positions@.len() == g0.positions.len() + 3 * k,
            geom@ == with_cone(g0, *rim, apex, zero, k as int),
    {
        let t = if rim.agrees[k] {
            Tri { a: rim.lower[k], b: rim.lower[k + 1], c: apex }
        } else {
            Tri { a: rim.lower[k + 1], b: rim.lower[k], c: apex }
        };
        push_triangle(geom, t, rim.normals[k], zero);
    }
}

/// The corners of a turned box. The letters say, for x, y and z in turn, whether
/// the corner is on the low or the high side.
#[derive(Debug, PartialEq, Eq)]
pub struct BoxCorners<T> {
    pub lll: P3<T>,
    pub llh: P3<T>,
    pub lhl: P3<T>,
    pub lhh: P3<T>,
    pub hll: P3<T>,
    pub hlh: P3<T>,
    pub hhl: P3<T>,
    pub hhh: P3<T>,
}

/// The faces of a turned box: up, down, +x, -x, +z, -z.
pub open spec fn turned_face<T>(b: BoxCorners<T>, k: int) -> Quad<P3<T>> {
    if k == 0 {
        Quad { a: b.lhh, b: b.hhh, c: b.hhl, d: b.lhl }
    } else if k == 1 {
        Quad { a: b.lll, b: b.hll, c: b.hlh, d: b.llh }
    } else if k == 2 {
        Quad { a: b.hlh, b: b.hll, c: b.hhl, d: b.hhh }
    } else if k == 3 {
        Quad { a: b.lll, b: b.llh, c: b.lhh, d: b.lhl }
    } else if k == 4 {
        Quad { a: b.llh, b: b.hlh, c: b.hhh, d: b.lhh }
    } else {
        Quad { a: b.hll, b: b.lll, c: b.lhl, d: b.hhl }
    }
}

/// A face of a turned box, by its place.
pub fn rotated_box_face<T: Copy>(b: &BoxCorners<T>, k: usize) -> (r: Quad<P3<T>>)
    requires
        k < 6,
    ensures
        r == turned_face(*b, k as int),
{
    if k == 0 {
        Quad { a: b.lhh, b: b.hhh, c: b.hhl, d: b.lhl }
    } else if k == 1 {
        Quad { a: b.lll, b: b.hll, c: b.hlh, d: b.llh }
    } else if k == 2 {
        Quad { a: b.hlh, b: b.hll, c: b.hhl, d: b.hhh }
    } else if k == 3 {
        Quad { a: b.lll, b: b.llh, c: b.lhh, d: b.lhl }
    } else if k == 4 {
        Quad { a: b.llh, b: b.hlh, c: b.hhh, d: b.lhh }
    } else {
        Quad { a: b.hll, b: b.lll, c: b.lhl, d: b.hhl }
    }
}

/// A face's normal, and whether its plain winding faces outward.
#[derive(Debug, PartialEq, Eq)]
pub struct FaceFit<T> {
    pub agrees: bool,
    pub normal: P3<T>,
}

impl<T: Copy> Copy for FaceFit<T> {

}

impl<T: Copy> Clone for FaceFit<T> {
    fn clone(&self) -> (r: Self)
        ensures
            r == *self,
    {
        *self
    }
}

/// The mesh with the first `k` faces of a turned box.
pub open spec fn with_turned_box<T>(
    g: GeomView<T>,
    b: BoxCorners<T>,
    fits: Seq<FaceFit<T>>,
    uvs: Quad<P2<T>>,
    k: int,
) -> GeomView<T>
    decreases k,
{
    if k <= 0 {
        g
    } else {
        crate::map_render::with_face(
            with_turned_box(g, b, fits, uvs, k - 1),
            outward(turned_face(b, k - 1), fits[k - 1].agrees),
            fits[k - 1].normal,
            uvs,
        )
    }
}

/// The face that starts at a vertex winds along its normal.
pub open spec fn face_winds(g: GeomView<int>, first: int) -> bool {
    looks_along(
        Quad {
            a: g.positions[first],
            b: g.positions[first + 1],
            c: g.positions[first + 2],
            d: g.positions[first + 3],
        },
        g.normals[first],
    )
}

/// The plain winding of a face is measured right: its two triangles turn alike
/// along its normal, and it agrees where they turn towards it.
pub open spec fn fit_is_right(q: Quad<P3<int>>, fit: FaceFit<int>) -> bool {
    let one = crate::map_render::turn_along(q.a, q.b, q.c, fit.normal);
    let other = crate::map_render::turn_along(q.a, q.c, q.d, fit.normal);
    &&& one != 0
    &&& other != 0
    &&& fit.agrees == (one > 0)
    &&& fit.agrees == (other > 0)
}

/// Every face of a turned box winds along the normal it carries.
pub proof fn law_turned_boxes_wind_along_their_normals(
    g: GeomView<int>,
    b: BoxCorners<int>,
    fits: Seq<FaceFit<int>>,
    uvs: Quad<P2<int>>,
    k: int,
    j: int,
)
    requires
        g.normals.len() == g.positions.len(),
        0 <= j < k <= 6,
        forall|i: int| 0 <= i < k ==> fit_is_right(turned_face(b, i), #[trigger] fits[i]),
    ensures
        face_winds(with_turned_box(g, b, fits, uvs, k), g.positions.len() + 4 * j),
    decreases k,
{
    let before = with_turned_box(g, b, fits, uvs, k - 1);
    let now = with_turned_box(g, b, fits, uvs, k);
    let first = g.positions.len() + 4 * j;
    lemma_turned_box_size(g, b, fits, uvs, k - 1);
    let o = outward(turned_face(b, k - 1), fits[k - 1].agrees);
    if j < k - 1 {
        law_turned_boxes_wind_along_their_normals(g, b, fits, uvs, k - 1, j);
        assert(now.normals[first] == before.normals[first]);
        assert(now.positions[first] == before.positions[first]);
        assert(now.positions[first + 1] == before.positions[first + 1]);
        assert(now.positions[first + 2] == before.positions[first + 2]);
        assert(now.positions[first + 3] == before.positions[first + 3]);
    } else {
        assert(fit_is_right(turned_face(b, j), fits[j]));
        law_ordered_faces_look_outward(turned_face(b, j), fits[j].normal, fits[j].agrees);
        assert(now.positions[first] == o.items()[0]);
        assert(now.positions[first + 1] == o.items()[1]);
        assert(now.positions[first + 2] == o.items()[2]);
        assert(now.positions[first + 3] == o.items()[3]);
        assert(now.normals[first] == crate::map_render::four(fits[j].normal)[0]);
    }
}

proof fn lemma_turned_box_size<T>(
    g: GeomView<T>,
    b: BoxCorners<T>,
    fits: Seq<FaceFit<T>>,
    uvs: Quad<P2<T>>,
    k: int,
)
    requires
        g.normals.len() == g.positions.len(),
        0 <= k,
    ensures
        with_turned_box(g, b, fits, uvs, k).positions.len() == g.positions.len() + 4 * k,
        with_turned_box(g, b, fits, uvs, k).normals.len() == g.positions.len() + 4 * k,
    decreases k,
{
    if k > 0 {
        lemma_turned_box_size(g, b, fits, uvs, k - 1);
    }
}

/// Appends a turned box.
pub fn append_rotated_box<T: Copy>(
    geom: &mut MeshGeom<T>,
    b: &BoxCorners<T>,
    fits: &Vec<FaceFit<T>>,
    uvs: Quad<P2<T>>,
)
    requires
        fits@.len() == 6,
        old(geom).sound(),
        old(geom).positions@.len() + 24 <= u32::MAX,
    ensures
        final(geom).sound(),
        final(geom)@ == with_turned_box(old(geom)@, *b, fits@, uvs, 6),
        final(geom).positions@.len() == old(geom).positions@.len() + 24,
{
    let ghost g0 = geom@;
    for k in 0..6usize
        invariant
            fits@.len() == 6,
            geom.sound(),
            g0.positions.len() + 24 <= u32::MAX,
            geom.positions@.len() == g0.positions.len() + 4 * k,
            geom@ == with_turned_box(g0, *b, fits@, uvs, k as int),
    {
        let corners = order_quad_outward(rotated_box_face(b, k), fits[k].agrees);
        geom.push_face(corners, fits[k].normal, uvs);
    }
}

// ---- ridge --------------------------------------------------------------------

/// Number of segments of the ridge on the horizon.
pub const RIDGE_SEGMENTS: u32 = 28;

/// Bit pattern of 8.0: peaks above this carry snow.
pub const SNOW_LINE_BITS: u32 = 0x4100_0000;

/// A segment of the ridge carries snow where either of its peaks does.
pub fn ridge_has_snow(h0: F32, h1: F32) -> (r: bool)
    ensures
        r == ((F32 { bits: SNOW_LINE_BITS }).below(h0) || (F32 { bits: SNOW_LINE_BITS }).below(h1)),
{
    let line = F32::from_bits(SNOW_LINE_BITS);
    line.lt(h0) || line.lt(h1)
}

/// A segment of the ridge: points at its foot, on the snow line and at its peaks.
#[derive(Debug, PartialEq, Eq)]
pub struct RidgeSegment<T> {
    pub foot0: P3<T>,
    pub foot1: P3<T>,
    pub snow0: P3<T>,
    pub snow1: P3<T>,
    pub peak0: P3<T>,
    pub peak1: P3<T>,
}

impl<T> RidgeSegment<T> {
    /// From the foot to the peaks.
    pub open spec fn body(self) -> Quad<P3<T>> {
        Quad { a: self.foot0, b: self.foot1, c: self.peak1, d: self.peak0 }
    }

    /// From the foot to the snow line.
    pub open spec fn rock(self) -> Quad<P3<T>> {
        Quad { a: self.foot0, b: self.foot1, c: self.snow1, d: self.snow0 }
    }

    /// From the snow line to the peaks.
    pub open spec fn cap(self) -> Quad<P3<T>> {
        Quad { a: self.snow0, b: self.snow1, c: self.peak1, d: self.peak0 }
    }
}

/// What is measured of a segment's faces, and their colours.
#[derive(Debug, PartialEq, Eq)]
pub struct RidgeFit<T> {
    pub body: FaceFit<T>,
    pub rock: FaceFit<T>,
    pub cap: FaceFit<T>,
    pub rock_color: Rgba<T>,
    pub snow_color: Rgba<T>,
}

/// The mesh with a segment of the ridge: one face of rock, or rock below and
/// snow above.
pub open spec fn with_ridge_segment<T>(
    g: GeomView<T>,
    s: RidgeSegment<T>,
    fit: RidgeFit<T>,
    snow: bool,
    zero: T,
) -> GeomView<T> {
    if snow {
        with_colored_face(
            with_colored_face(
                g,
                outward(s.rock(), fit.rock.agrees),
                fit.rock.normal,
                fit.rock_color,
                zero,
            ),
            outward(s.cap(), fit.cap.agrees),
            fit.cap.normal,
            fit.snow_color,
            zero,
        )
    } else {
        with_colored_face(
            g,
            outward(s.body(), fit.body.agrees),
            fit.body.normal,
            fit.rock_color,
            zero,
        )
    }
}

/// Appends a segment of the ridge.
pub fn append_ridge_segment<T: Copy>(
    geom: &mut MeshGeom<T>,
    s: &RidgeSegment<T>,
    fit: &RidgeFit<T>,
    snow: bool,
    zero: T,
)
    requires
        old(geom).sound(),
        old(geom).positions@.len() + 8 <= u32::MAX,
    ensures
        final(geom).sound(),
        final(geom)@ == with_ridge_segment(old(geom)@, *s, *fit, snow, zero),
        old(geom).colors@.len() == old(geom).positions@.len() ==> final(geom).colors@.len()
            == final(geom).positions@.len(),
{
    if snow {
        let rock = Quad { a: s.foot0, b: s.foot1, c: s.snow1, d: s.snow0 };
        let cap = Quad { a: s.snow0, b: s.snow1, c: s.peak1, d: s.peak0 };
        push_face_colored(
            geom,
            order_quad_outward(rock, fit.rock.agrees),
            fit.rock.normal,
            fit.rock_color,
            zero,
        );
        push_face_colored(
            geom,
            order_quad_outward(cap, fit.cap.agrees),
            fit.cap.normal,
            fit.snow_color,
            zero,
        );
    } else {
        let body = Quad { a: s.foot0, b: s.foot1, c: s.peak1, d: s.peak0 };
        push_face_colored(
            geom,
            order_quad_outward(body, fit.body.agrees),
            fit.body.normal,
            fit.rock_color,
            zero,
        );
    }
}

// ---- placement ----------------------------------------------------------------

/// Fewest pines aimed at.
pub const PINE_MIN: u32 = 48;

/// Most pines aimed at.
pub const PINE_MAX: u32 = 72;

/// Tries allowed per pine aimed at.
pub const TRIES_PER_PINE: u32 = 40;

/// Bit pattern of 2.2 * 2.2: least squared distance between two pines.
pub const PINE_SPACING_BITS: u32 = 0x409a_e148;

/// Bit pattern of 0.55: draws below pick the treeline outside the walls.
pub const TREELINE_SHARE_BITS: u64 = 0x3fe1_9999_9999_999a;

/// Bit pattern of 0.85: draws below pick the treeline or the high band.
pub const HIGH_BAND_SHARE_BITS: u64 = 0x3feb_3333_3333_3333;

/// Bit pattern of 0.4: draws below leave a stair mouth without a rock.
pub const BARE_MOUTH_BITS: u64 = 0x3fd9_9999_9999_999a;

/// A placed prop, as bit patterns.
#[derive(Clone, Copy, Debug, PartialEq, Eq, Structural)]
pub struct PropPose {
    pub x: F32,
    pub z: F32,
    pub yaw: F32,
    pub scale: F32,
}

/// Where the next pine is tried.
#[derive(Clone, Copy, Debug, PartialEq, Eq, Structural)]
pub enum PineSpot {
    Treeline,
    HighBand,
    EdgeRing,
}

/// Picks where the next pine is tried by a draw from zero to one.
pub fn pine_spot(draw: F64) -> (r: PineSpot)
    ensures
        r == (if draw.below((F64 { bits: TREELINE_SHARE_BITS })) {
            PineSpot::Treeline
        } else if draw.below((F64 { bits: HIGH_BAND_SHARE_BITS })) {
            PineSpot::HighBand
        } else {
            PineSpot::EdgeRing
        }),
{
    if draw.lt(F64::from_bits(TREELINE_SHARE_BITS)) {
        PineSpot::Treeline
    } else if draw.lt(F64::from_bits(HIGH_BAND_SHARE_BITS)) {
        PineSpot::HighBand
    } else {
        PineSpot::EdgeRing
    }
}

/// A point beside one of the four sides: south, north, west, and east for any
/// other number. `along` runs along the side; `low` and `high` are the distances
/// from the middle, with their sign.
pub fn side_point<T: Copy>(side: i32, along: T, low: T, high: T) -> (r: (T, T))
    ensures
        r == (if side == 0 {
            (along, low)
        } else if side == 1 {
            (along, high)
        } else if side == 2 {
            (low, along)
        } else {
            (high, along)
        }),
{
    if side == 0 {
        (along, low)
    } else if side == 1 {
        (along, high)
    } else if side == 2 {
        (low, along)
    } else {
        (high, along)
    }
}

/// What decides whether a prop may stand at a point: the point, the distance
/// from the middle from which on it counts as outside, and whether its cell is
/// walkable.
#[derive(Clone, Copy, Debug, PartialEq, Eq, Structural)]
pub struct PropSite {
    pub x: F32,
    pub z: F32,
    pub edge: F32,
    pub walkable: bool,
}

impl PropSite {
    /// Past the edge.
    pub open spec fn beyond(self) -> bool {
        self.edge.below(self.x.absolute()) || self.edge.below(self.z.absolute())
    }

    /// Past the edge or on it.
    pub open spec fn at_edge(self) -> bool {
        self.edge.at_most(self.x.absolute()) || self.edge.at_most(self.z.absolute())
    }

    pub open spec fn fits_pine(self) -> bool {
        self.beyond() || !self.walkable
    }

    pub open spec fn fits_rock(self) -> bool {
        self.at_edge() || !self.walkable
    }
}

/// Whether a pine may stand at a point.
pub fn pine_site_ok(site: &PropSite) -> (r: bool)
    ensures
        r == site.fits_pine(),
{
    site.edge.lt(site.x.abs()) || site.edge.lt(site.z.abs()) || !site.walkable
}

/// Whether a rock may lie at a point.
pub fn rock_site_ok(site: &PropSite) -> (r: bool)
    ensures
        r == site.fits_rock(),
{
    site.edge.le(site.x.abs()) || site.edge.le(site.z.abs()) || !site.walkable
}

/// No prop stands on walkable floor inside the edge.
pub proof fn law_props_keep_off_the_floor(site: PropSite)
    ensures
        site.walkable && !site.at_edge() ==> !site.fits_pine() && !site.fits_rock(),
{
}

/// Whether a pine stands outside the walls, where a far shape is enough.
pub fn pine_is_far(pose: &PropPose, half: F32) -> (r: bool)
    ensures
        r == (half.below(pose.x.absolute()) || half.below(pose.z.absolute())),
{
    half.lt(pose.x.abs()) || half.lt(pose.z.abs())
}

/// Pines as they are placed one by one.
#[derive(Debug, PartialEq, Eq)]
pub struct PinePlacer {
    pub target: u32,
    pub tries: u32,
    pub poses: Vec<PropPose>,
}

/// Every other pine is at least the spacing away.
pub open spec fn all_spaced(gaps: Seq<F32>) -> bool {
    forall|i: int|
        0 <= i < gaps.len() ==> !(#[trigger] gaps[i]).below(F32 { bits: PINE_SPACING_BITS })
}

fn check_spacing(gaps: &Vec<F32>) -> (r: bool)
    ensures
        r == all_spaced(gaps@),
{
    let least = F32::from_bits(PINE_SPACING_BITS);
    for i in 0..gaps.len()
        invariant
            least == (F32 { bits: PINE_SPACING_BITS }),
            forall|j: int| 0 <= j < i ==> !(#[trigger] gaps@[j]).below(least),
    {
        if gaps[i].lt(least) {
            assert(gaps@[i as int].below(F32 { bits: PINE_SPACING_BITS }));
            return false;
        }
    }
    true
}

/// A pine that is tried: where, how far (squared) from each pine already placed,
/// and how it would be turned and sized.
pub struct PineTry {
    pub site: PropSite,
    pub gaps: Seq<F32>,
    pub yaw: F32,
    pub scale: F32,
}

impl PineTry {
    /// The ground is free and no pine is too close.
    pub open spec fn fits(self) -> bool {
        self.site.fits_pine() && all_spaced(self.gaps)
    }

    pub open spec fn pose(self) -> PropPose {
        PropPose { x: self.site.x, z: self.site.z, yaw: self.yaw, scale: self.scale }
    }
}

/// The pines after one more try.
pub open spec fn planted_one(before: Seq<PropPose>, t: PineTry) -> Seq<PropPose> {
    if t.fits() {
        before.push(t.pose())
    } else {
        before
    }
}

/// The pines after the first `n` tries.
pub open spec fn planted(tries: Seq<PineTry>, n: int) -> Seq<PropPose>
    decreases n,
{
    if n <= 0 {
        Seq::empty()
    } else {
        planted_one(planted(tries, n - 1), tries[n - 1])
    }
}

impl PinePlacer {
    /// The number of pines and of tries stay within what is aimed at.
    pub open spec fn wf(self) -> bool {
        &&& PINE_MIN <= self.target <= PINE_MAX
        &&& self.tries <= self.target * TRIES_PER_PINE
        &&& self.poses@.len() <= self.tries
        &&& self.poses@.len() <= self.target
    }

    /// Pines are missing and tries are left.
    pub open spec fn unfinished(self) -> bool {
        self.poses@.len() < self.target && self.tries < self.target * TRIES_PER_PINE
    }

    /// No pines yet; `extra` pines more than the fewest are aimed at.
    pub fn new(extra: u32) -> (r: PinePlacer)
        requires
            extra <= PINE_MAX - PINE_MIN,
        ensures
            r.wf(),
            r.unfinished(),
            r.target == PINE_MIN + extra,
            r.tries == 0,
            r.poses@ == Seq::<PropPose>::empty(),
    {
        PinePlacer { target: PINE_MIN + extra, tries: 0, poses: Vec::new() }
    }

    pub fn wants_more(&self) -> (r: bool)
        requires
            self.wf(),
        ensures
            r == self.unfinished(),
    {
        (self.poses.len() as u64) < self.target as u64 && self.tries < self.target * TRIES_PER_PINE
    }

    /// Tries to place a pine. `gaps` are the squared distances to the pines
    /// already placed; yaw and scale are drawn only where the pine fits.
    pub fn try_pine<D: FnOnce() -> (F32, F32)>(
        &mut self,
        site: &PropSite,
        gaps: &Vec<F32>,
        draw: D,
    ) -> (placed: bool)
        requires
            old(self).wf(),
            old(self).unfinished(),
            gaps@.len() == old(self).poses@.len(),
            call_requires(draw, ()),
        ensures
            final(self).wf(),
            final(self).tries == old(self).tries + 1,
            final(self).target == old(self).target,
            placed == (site.fits_pine() && all_spaced(gaps@)),
            !placed ==> final(self).poses@ == old(self).poses@,
            placed ==> exists|drawn: (F32, F32)| #[trigger]
                call_ensures(draw, (), drawn) && final(self).poses@ == planted_one(
                    old(self).poses@,
                    PineTry { site: *site, gaps: gaps@, yaw: drawn.0, scale: drawn.1 },
                ) && final(self).poses@ == old(self).poses@.push(
                    PropPose { x: site.x, z: site.z, yaw: drawn.0, scale: drawn.1 },
                ),
    {
        self.tries = self.tries + 1;
        if !pine_site_ok(site) || !check_spacing(gaps) {
            return false;
        }
        let drawn = draw();
        self.poses.push(PropPose { x: site.x, z: site.z, yaw: drawn.0, scale: drawn.1 });
        true
    }
}

/// Every placed pine stands off the walkable floor and was, when it was placed,
/// the spacing away from all pines before it; and there are never more than aimed
/// at.
pub proof fn law_pines_stand_free_and_apart(tries: Seq<PineTry>, n: int, target: u32, k: int)
    requires
        0 <= n <= tries.len(),
        target <= PINE_MAX,
        forall|j: int| 0 <= j < n ==> (#[trigger] planted(tries, j)).len() < target,
        forall|j: int| 0 <= j < n ==> (#[trigger] tries[j]).gaps.len() == planted(tries, j).len(),
        0 <= k < planted(tries, n).len(),
    ensures
        planted(tries, n).len() <= target,
        exists|j: int|
            0 <= j < n && #[trigger] planted(tries, j) == planted(tries, n).take(k)
                && tries[j].pose() == planted(tries, n)[k] && tries[j].gaps.len() == k
                && all_spaced(tries[j].gaps) && (tries[j].site.beyond()
                || !tries[j].site.walkable),
    decreases n,
{
    if n > 0 {
        let before = planted(tries, n - 1);
        let t = tries[n - 1];
        if k < before.len() {
            law_pines_stand_free_and_apart(tries, n - 1, target, k);
            let j = choose|j: int|
                0 <= j < n - 1 && #[trigger] planted(tries, j) == before.take(k)
                    && tries[j].pose() == before[k] && tries[j].gaps.len() == k && all_spaced(
                    tries[j].gaps,
                ) && (tries[j].site.beyond() || !tries[j].site.walkable);
            assert(planted(tries, n).take(k) =~= before.take(k));
            assert(planted(tries, j) == planted(tries, n).take(k));
        } else {
            assert(planted(tries, n).take(k) =~= before);
            assert(planted(tries, n - 1) == planted(tries, n).take(k));
        }
        assert(planted(tries, n - 1).len() < target);
    }
}

/// Points tried for a rock: the point itself and four rings of eight.
pub const SNAP_CANDIDATES: usize = 33;

/// The offset of candidate `k` from the point, in half metres.
pub open spec fn snap_step(k: int) -> (int, int) {
    let d = 1 + (k - 1) / 8;
    let way = (k - 1) % 8;
    if k <= 0 {
        (0, 0)
    } else if way == 0 {
        (-d, 0)
    } else if way == 1 {
        (d, 0)
    } else if way == 2 {
        (0, -d)
    } else if way == 3 {
        (0, d)
    } else if way == 4 {
        (-d, -d)
    } else if way == 5 {
        (d, d)
    } else if way == 6 {
        (-d, d)
    } else {
        (d, -d)
    }
}

/// The offset of a candidate from the point, in half metres.
pub fn snap_offset(k: usize) -> (r: (i32, i32))
    requires
        k < SNAP_CANDIDATES,
    ensures
        r.0 == snap_step(k as int).0,
        r.1 == snap_step(k as int).1,
{
    if k == 0 {
        return (0, 0);
    }
    let d: i32 = 1 + ((k - 1) / 8) as i32;
    let way: usize = (k - 1) % 8;
    if way == 0 {
        (-d, 0)
    } else if way == 1 {
        (d, 0)
    } else if way == 2 {
        (0, -d)
    } else if way == 3 {
        (0, d)
    } else if way == 4 {
        (-d, -d)
    } else if way == 5 {
        (d, d)
    } else if way == 6 {
        (-d, d)
    } else {
        (d, -d)
    }
}

/// The candidates are distinct points within two metres along each axis.
pub proof fn law_snap_candidates_are_distinct(a: int, b: int)
    requires
        0 <= a < b < SNAP_CANDIDATES,
    ensures
        snap_step(a) != snap_step(b),
        -4 <= snap_step(b).0 <= 4,
        -4 <= snap_step(b).1 <= 4,
{
}

/// The first candidate where a rock may lie.
pub fn snap_non_walkable(ok: &Vec<bool>) -> (r: Option<usize>)
    ensures
        match r {
            Some(k) => k < ok@.len() && ok@[k as int] && forall|j: int|
                0 <= j < k ==> !#[trigger] ok@[j],
            None => forall|j: int| 0 <= j < ok@.len() ==> !#[trigger] ok@[j],
        },
{
    for k in 0..ok.len()
        invariant
            forall|j: int| 0 <= j < k ==> !#[trigger] ok@[j],
    {
        if ok[k] {
            return Some(k);
        }
    }
    None
}

/// The signs of the four corners outside the walls where a rock lies.
pub fn rock_corner(k: usize) -> (r: (i32, i32))
    requires
        k < 4,
    ensures
        r.0 == (if k % 2 == 0 {
            -1int
        } else {
            1
        }),
        r.1 == (if k < 2 {
            -1int
        } else {
            1
        }),
{
    (
        if k % 2 == 0 {
            -1
        } else {
            1
        },
        if k < 2 {
            -1
        } else {
            1
        },
    )
}

/// The points beside a stair where a rock may lie: left and right of its foot,
/// then of its head.
pub fn stair_mouths<T: Copy>(left: T, right: T, foot: T, head: T) -> (r: Quad<(T, T)>)
    ensures
        r == (Quad { a: (left, foot), b: (right, foot), c: (left, head), d: (right, head) }),
{
    Quad { a: (left, foot), b: (right, foot), c: (left, head), d: (right, head) }
}

/// Whether a draw leaves a stair mouth without a rock.
pub fn mouth_stays_bare(draw: F64) -> (r: bool)
    ensures
        r == draw.below((F64 { bits: BARE_MOUTH_BITS })),
{
    draw.lt(F64::from_bits(BARE_MOUTH_BITS))
}

// ---- fingerprints ---------------------------------------------------------------

/// Start of a fingerprint.
pub const POSE_HASH_START: u64 = 0xcbf2_9ce4_8422_2325;

/// Multiplier of a fingerprint.
pub const POSE_HASH_PRIME: u64 = 0x1000_0000_01b3;

/// A fingerprint with 32 more bits mixed in.
pub open spec fn mixed(h: u64, bits: u32) -> u64 {
    (((h ^ (bits as u64)) * POSE_HASH_PRIME) % 0x1_0000_0000_0000_0000) as u64
}

/// The fingerprint of the first `n` poses.
pub open spec fn poses_hash(poses: Seq<PropPose>, n: int) -> u64
    decreases n,
{
    if n <= 0 {
        POSE_HASH_START
    } else {
        let p = poses[n - 1];
        mixed(
            mixed(mixed(mixed(poses_hash(poses, n - 1), p.x.bits), p.z.bits), p.yaw.bits),
            p.scale.bits,
        )
    }
}

fn mix(h: u64, bits: u32) -> (r: u64)
    ensures
        r == mixed(h, bits),
{
    (h ^ (bits as u64)).wrapping_mul(POSE_HASH_PRIME)
}

/// A fingerprint of placed props, equal for equal placements.
pub fn hash_prop_poses(poses: &Vec<PropPose>) -> (r: u64)
    ensures
        r == poses_hash(poses@, poses@.len() as int),
{
    let mut h: u64 = POSE_HASH_START;
    for i in 0..poses.len()
        invariant
            h == poses_hash(poses@, i as int),
    {
        let p = poses[i];
        h = mix(mix(mix(mix(h, p.x.bits), p.z.bits), p.yaw.bits), p.scale.bits);
    }
    h
}

// ---- textures -----------------------------------------------------------------

/// A flat texture with specks: its ground, the colour of the specks, their number
/// and the salt that scatters them.
#[derive(Clone, Copy, Debug, PartialEq, Eq, Structural)]
pub struct Speckle {
    pub base: Rgb,
    pub fleck: Rgb,
    pub count: u32,
    pub salt: u32,
}

/// Brown earth with grey grit.
pub fn gen_earth_scree_tex() -> (r: Speckle)
    ensures
        r == (Speckle {
            base: Rgb { r: 0x6b, g: 0x52, b: 0x3a },
            fleck: Rgb { r: 0x8a, g: 0x7a, b: 0x68 },
            count: 900,
            salt: 11,
        }),
{
    Speckle {
        base: Rgb { r: 0x6b, g: 0x52, b: 0x3a },
        fleck: Rgb { r: 0x8a, g: 0x7a, b: 0x68 },
        count: 900,
        salt: 11,
    }
}

/// Dark needles.
pub fn gen_needle_tex() -> (r: Speckle)
    ensures
        r == (Speckle {
            base: Rgb { r: 0x1e, g: 0x3a, b: 0x22 },
            fleck: Rgb { r: 0x14, g: 0x2c, b: 0x18 },
            count: 700,
            salt: 22,
        }),
{
    Speckle {
        base: Rgb { r: 0x1e, g: 0x3a, b: 0x22 },
        fleck: Rgb { r: 0x14, g: 0x2c, b: 0x18 },
        count: 700,
        salt: 22,
    }
}

/// Brown bark.
pub fn gen_bark_tex() -> (r: Speckle)
    ensures
        r == (Speckle {
            base: Rgb { r: 0x4a, g: 0x32, b: 0x22 },
            fleck: Rgb { r: 0x3a, g: 0x28, b: 0x1a },
            count: 500,
            salt: 33,
        }),
{
    Speckle {
        base: Rgb { r: 0x4a, g: 0x32, b: 0x22 },
        fleck: Rgb { r: 0x3a, g: 0x28, b: 0x1a },
        count: 500,
        salt: 33,
    }
}

/// Grey stone.
pub fn gen_stone_tex() -> (r: Speckle)
    ensures
        r == (Speckle {
            base: Rgb { r: 0x6e, g: 0x6c, b: 0x68 },
            fleck: Rgb { r: 0x58, g: 0x56, b: 0x52 },
            count: 600,
            salt: 44,
        }),
{
    Speckle {
        base: Rgb { r: 0x6e, g: 0x6c, b: 0x68 },
        fleck: Rgb { r: 0x58, g: 0x56, b: 0x52 },
        count: 600,
        salt: 44,
    }
}

/// Byte `i` of an opaque image of a single colour.
pub open spec fn flat_byte(c: Rgb, i: int) -> u8 {
    if i % 4 == 0 {
        c.r
    } else if i % 4 == 1 {
        c.g
    } else if i % 4 == 2 {
        c.b
    } else {
        255
    }
}

/// A square image of a single colour, four bytes per pixel.
pub fn flat_texture(size: u32, base: Rgb) -> (px: Vec<u8>)
    requires
        4 * size * size <= u32::MAX,
    ensures
        px@ == Seq::new((4 * size * size) as nat, |i: int| flat_byte(base, i)),
{
    let mut px: Vec<u8> = Vec::new();
    assert(size * size <= u32::MAX && 0 <= size * size) by (nonlinear_arith)
        requires
            4 * size * size <= u32::MAX,
            0 <= size,
    ;
    let n: u32 = size * size;
    assert(4 * n == 4 * size * size) by (nonlinear_arith)
        requires
            n == size * size,
    ;
    for k in 0..n
        invariant
            px@ == Seq::new((4 * k) as nat, |i: int| flat_byte(base, i)),
    {
        px.push(base.r);
        px.push(base.g);
        px.push(base.b);
        px.push(255);
        assert(px@ =~= Seq::new((4 * (k + 1)) as nat, |i: int| flat_byte(base, i)));
    }
    px
}

/// Where the pixel of a speck begins: one of four, wrapping round the edges.
pub fn speck_pixel(u: u32, v: u32, dx: u32, dy: u32, size: u32) -> (o: usize)
    requires
        0 < size,
        4 * size * size <= u32::MAX,
        u < size,
        v < size,
        dx < 2,
        dy < 2,
    ensures
        o == 4 * (((v + dy) % (size as int)) * size + (u + dx) % (size as int)),
        o + 3 < 4 * size * size,
{
    assert(size <= 0x8000) by (nonlinear_arith)
        requires
            4 * size * size <= 0xffff_ffff,
    ;
    let x: u32 = (u + dx) % size;
    let y: u32 = (v + dy) % size;
    assert(0 <= y * size && y * size + size <= size * size) by (nonlinear_arith)
        requires
            0 <= y < size,
    ;
    assert(size * size * 4 <= u32::MAX) by (nonlinear_arith)
        requires
            4 * size * size <= u32::MAX,
    ;
    assert(4 * size * size == size * size * 4) by (nonlinear_arith);
    ((y * size + x) * 4) as usize
}

// ---- the whole ------------------------------------------------------------------

/// The meshes of a mountain map's dressing and what they were made from.
#[derive(Debug, PartialEq, Eq)]
pub struct MountainDressing<T> {
    pub slopes: MeshGeom<T>,
    pub pine_trunks: MeshGeom<T>,
    pub pine_needles: MeshGeom<T>,
    /// Pines outside the walls.
    pub pine_far: MeshGeom<T>,
    pub rocks: MeshGeom<T>,
    pub ridge: MeshGeom<T>,
    pub pine_poses: Vec<PropPose>,
    pub rock_poses: Vec<PropPose>,
    pub retaining_count: usize,
    pub stair_run_count: usize,
}

impl<T: Copy> MountainDressing<T> {
    /// Every mesh holds whole triangles within its vertices.
    pub open spec fn sound(self) -> bool {
        &&& self.slopes.sound() && self.pine_trunks.sound() && self.pine_needles.sound()
        &&& self.pine_far.sound() && self.rocks.sound() && self.ridge.sound()
    }

    /// Bare ground: no meshes and no props, with the number of walls and stairs
    /// that will be dressed.
    pub fn new(retaining_count: usize, stair_run_count: usize) -> (r: Self)
        ensures
            r.sound(),
            r.slopes.positions@.len() == 0,
            r.pine_trunks.positions@.len() == 0,
            r.pine_needles.positions@.len() == 0,
            r.pine_far.positions@.len() == 0,
            r.rocks.positions@.len() == 0,
            r.ridge.positions@.len() == 0,
            r.pine_poses@.len() == 0,
            r.rock_poses@.len() == 0,
            r.retaining_count == retaining_count,
            r.stair_run_count == stair_run_count,
    {
        MountainDressing {
            slopes: MeshGeom::new(),
            pine_trunks: MeshGeom::new(),
            pine_needles: MeshGeom::new(),
            pine_far: MeshGeom::new(),
            rocks: MeshGeom::new(),
            ridge: MeshGeom::new(),
            pine_poses: Vec::new(),
            rock_poses: Vec::new(),
            retaining_count,
            stair_run_count,
        }
    }

    pub fn pine_count(&self) -> (r: usize)
        ensures
            r == self.pine_poses@.len(),
    {
        self.pine_poses.len()
    }

    pub fn rock_cluster_count(&self) -> (r: usize)
        ensures
            r == self.rock_poses@.len(),
    {
        self.rock_poses.len()
    }
}

// ---- what the dressing promises ---------------------------------------------------

/// A retaining wall's measures: long, thin, of middling height, on the ground, and
/// more than two and a half times as long as it is thick.
pub proof fn law_retaining_walls_measure_up(w: MeasuredWall)
    requires
        !w.sx.nan() && !w.sy.nan() && !w.sz.nan() && !w.foot.nan() && !w.slim.nan(),
    ensures
        w.retaining() <==> {
            &&& RETAIN_MIN_LEN_BITS <= w.sx.rank()
            &&& RETAIN_MIN_THICK_BITS <= w.sz.rank() <= RETAIN_MAX_THICK_BITS
            &&& RETAIN_MIN_H_BITS <= w.sy.rank() <= RETAIN_MAX_H_BITS
            &&& w.foot.rank() <= RETAIN_MIN_THICK_BITS
            &&& w.slim.rank() < w.sx.rank()
        },
{
}

/// A step's measures: wide, shallow, low and on the ground.
pub proof fn law_steps_measure_up(w: MeasuredWall)
    requires
        !w.sx.nan() && !w.sy.nan() && !w.sz.nan() && !w.foot.nan(),
    ensures
        w.step() <==> {
            &&& STAIR_MIN_W_BITS <= w.sx.rank()
            &&& STAIR_MIN_THICK_BITS <= w.sz.rank() <= STAIR_MAX_THICK_BITS
            &&& STAIR_MIN_H_BITS < w.sy.rank() <= STAIR_MAX_H_BITS
            &&& w.foot.rank() <= STAIR_FOOT_BITS
        },
{
}

/// Retaining walls are listed all and alone, by z, then by x, then by place.
pub proof fn law_retaining_walls_are_listed_by_place(
    walls: Seq<MeasuredWall>,
    r: Seq<usize>,
    i: int,
    j: int,
    p: usize,
)
    requires
        picked_in_order(retaining_keys(walls), retaining_flags(walls), r),
    ensures
        r.contains(p) <==> p < walls.len() && walls[p as int].retaining(),
        0 <= i < j < r.len() ==> {
            let a = walls[r[i] as int];
            let b = walls[r[j] as int];
            &&& a.z0.rank() <= b.z0.rank()
            &&& a.z0.rank() == b.z0.rank() ==> a.x0.rank() <= b.x0.rank()
            &&& a.z0.rank() == b.z0.rank() && a.x0.rank() == b.x0.rank() ==> r[i] < r[j]
        },
{
    let flags = retaining_flags(walls);
    if p < walls.len() {
        assert(flags[p as int] == walls[p as int].retaining());
    }
    if r.contains(p) {
        let k = choose|k: int| 0 <= k < r.len() && r[k] == p;
        assert(flags[r[k] as int]);
    }
    if 0 <= i < j < r.len() {
        assert(comes_before(retaining_keys(walls), r[i] as int, r[j] as int));
        assert(r[i] < flags.len() && r[j] < flags.len());
    }
}

/// Steps are listed all and alone, by their middle, then by z, then by place.
pub proof fn law_steps_are_listed_by_place(
    walls: Seq<MeasuredWall>,
    r: Seq<usize>,
    i: int,
    j: int,
    p: usize,
)
    requires
        picked_in_order(stair_keys(walls), stair_flags(walls), r),
    ensures
        r.contains(p) <==> p < walls.len() && walls[p as int].step(),
        0 <= i < j < r.len() ==> {
            let a = walls[r[i] as int];
            let b = walls[r[j] as int];
            &&& a.mid.rank() <= b.mid.rank()
            &&& a.mid.rank() == b.mid.rank() ==> a.z0.rank() <= b.z0.rank()
            &&& a.mid.rank() == b.mid.rank() && a.z0.rank() == b.z0.rank() ==> r[i] < r[j]
        },
{
    let flags = stair_flags(walls);
    if p < walls.len() {
        assert(flags[p as int] == walls[p as int].step());
    }
    if r.contains(p) {
        let k = choose|k: int| 0 <= k < r.len() && r[k] == p;
        assert(flags[r[k] as int]);
    }
    if 0 <= i < j < r.len() {
        assert(comes_before(stair_keys(walls), r[i] as int, r[j] as int));
        assert(r[i] < flags.len() && r[j] < flags.len());
    }
}

/// The lesser and the greater of two numbers are these two, in order.
pub proof fn law_lesser_and_greater(a: F32, b: F32)
    requires
        !a.nan(),
        !b.nan(),
    ensures
        lesser(a, b) == a || lesser(a, b) == b,
        greater(a, b) == a || greater(a, b) == b,
        lesser(a, b).rank() <= a.rank() && lesser(a, b).rank() <= b.rank(),
        greater(a, b).rank() >= a.rank() && greater(a, b).rank() >= b.rank(),
        lesser(a, b).rank() + greater(a, b).rank() == a.rank() + b.rank(),
{
}

/// One of the steps `i..j` ends where the bounds do: a stair is no larger than its
/// steps.
pub open spec fn touches(
    walls: Seq<MeasuredWall>,
    order: Seq<usize>,
    i: int,
    j: int,
    b: StairRun,
) -> bool {
    &&& exists|k: int| i <= k < j && (#[trigger] walls[order[k] as int]).x0 == b.x0
    &&& exists|k: int| i <= k < j && (#[trigger] walls[order[k] as int]).x1 == b.x1
    &&& exists|k: int| i <= k < j && (#[trigger] walls[order[k] as int]).z0 == b.z0
    &&& exists|k: int| i <= k < j && (#[trigger] walls[order[k] as int]).z1 == b.z1
    &&& exists|k: int| i <= k < j && (#[trigger] walls[order[k] as int]).y1 == b.y1
}

/// A stair is no larger than its steps: each of its bounds is that of a step.
pub proof fn law_stairs_are_no_larger_than_their_steps(
    walls: Seq<MeasuredWall>,
    order: Seq<usize>,
    i: int,
    j: int,
)
    requires
        0 <= i < j <= order.len(),
    ensures
        touches(walls, order, i, j, run_bounds(walls, order, i, j)),
    decreases j - i,
{
    let w = walls[order[j - 1] as int];
    let b = run_bounds(walls, order, i, j);
    if j > i + 1 {
        law_stairs_are_no_larger_than_their_steps(walls, order, i, j - 1);
        let c = run_bounds(walls, order, i, j - 1);
        let k0 = choose|k: int| i <= k < j - 1 && (#[trigger] walls[order[k] as int]).x0 == c.x0;
        let k1 = choose|k: int| i <= k < j - 1 && (#[trigger] walls[order[k] as int]).x1 == c.x1;
        let k2 = choose|k: int| i <= k < j - 1 && (#[trigger] walls[order[k] as int]).z0 == c.z0;
        let k3 = choose|k: int| i <= k < j - 1 && (#[trigger] walls[order[k] as int]).z1 == c.z1;
        let k4 = choose|k: int| i <= k < j - 1 && (#[trigger] walls[order[k] as int]).y1 == c.y1;
        assert(b.x0 == w.x0 || walls[order[k0] as int].x0 == b.x0);
        assert(b.x1 == w.x1 || walls[order[k1] as int].x1 == b.x1);
        assert(b.z0 == w.z0 || walls[order[k2] as int].z0 == b.z0);
        assert(b.z1 == w.z1 || walls[order[k3] as int].z1 == b.z1);
        assert(b.y1 == w.y1 || walls[order[k4] as int].y1 == b.y1);
    }
}

/// A run's reach is the farthest of its steps' reaches.
pub proof fn law_runs_reach_as_far_as_their_steps(
    walls: Seq<MeasuredWall>,
    order: Seq<usize>,
    i: int,
    j: int,
    k: int,
)
    requires
        0 <= i <= k < j <= order.len(),
        forall|n: int| i <= n < j ==> !(#[trigger] walls[order[n] as int]).reach.nan(),
    ensures
        walls[order[k] as int].reach.rank() <= run_reach(walls, order, i, j).rank(),
        !run_reach(walls, order, i, j).nan(),
        exists|n: int|
            i <= n < j && (#[trigger] walls[order[n] as int]).reach == run_reach(walls, order, i, j),
    decreases j - i,
{
    let w = walls[order[j - 1] as int];
    assert(!w.reach.nan());
    if j > i + 1 {
        let e = if k < j - 1 {
            k
        } else {
            i
        };
        law_runs_reach_as_far_as_their_steps(walls, order, i, j - 1, e);
        let n = choose|n: int|
            i <= n < j - 1 && (#[trigger] walls[order[n] as int]).reach == run_reach(
                walls,
                order,
                i,
                j - 1,
            );
        assert(run_reach(walls, order, i, j) == w.reach || walls[order[n] as int].reach
            == run_reach(walls, order, i, j));
    }
}

/// A run goes on as long as the next step is as wide as the first and within reach,
/// and no longer.
pub proof fn law_runs_end_where_nothing_joins(
    walls: Seq<MeasuredWall>,
    aligned: Seq<Vec<bool>>,
    order: Seq<usize>,
    i: int,
    j: int,
    k: int,
)
    requires
        0 <= i < j <= order.len(),
    ensures
        ({
            let end = run_end(walls, aligned, order, i, j);
            &&& j <= end <= order.len()
            &&& j <= k < end ==> aligned[order[i] as int]@[order[k] as int] && !run_reach(
                walls,
                order,
                i,
                k,
            ).below(walls[order[k] as int].z0)
            &&& end < order.len() ==> !aligned[order[i] as int]@[order[end] as int] || run_reach(
                walls,
                order,
                i,
                end,
            ).below(walls[order[end] as int].z0)
        }),
    decreases order.len() - j,
{
    if j < order.len() && joins(walls, aligned, order, i, j) {
        law_runs_end_where_nothing_joins(walls, aligned, order, i, j + 1, k);
    }
}

/// A step that nothing joins makes no stair; one that is joined begins a stair over
/// all that join it, and the next stair begins where it ends.
pub proof fn law_stairs_begin_where_steps_join(
    walls: Seq<MeasuredWall>,
    aligned: Seq<Vec<bool>>,
    order: Seq<usize>,
    i: int,
)
    requires
        0 <= i < order.len(),
    ensures
        ({
            let end = run_end(walls, aligned, order, i, i + 1);
            let joined = i + 1 < order.len() && joins(walls, aligned, order, i, i + 1);
            let all = runs_from(walls, aligned, order, i);
            &&& joined <==> end >= i + 2
            &&& !joined ==> all == runs_from(walls, aligned, order, i + 1)
            &&& joined ==> all.len() > 0 && all[0] == run_bounds(walls, order, i, end) && all.skip(1)
                == runs_from(walls, aligned, order, end)
        }),
        runs_from(walls, aligned, order, order.len() as int).len() == 0,
{
    let end = run_end(walls, aligned, order, i, i + 1);
    lemma_run_advances(walls, aligned, order, i, i + 1);
    let joined = i + 1 < order.len() && joins(walls, aligned, order, i, i + 1);
    if joined {
        lemma_run_advances(walls, aligned, order, i, i + 2);
        assert(runs_from(walls, aligned, order, i).skip(1) =~= runs_from(
            walls,
            aligned,
            order,
            end,
        ));
    }
}

/// A slope is built where all three extents count.
pub proof fn law_flat_slopes_are_not_built(width: F32, depth: F32, height: F32)
    requires
        !width.nan() && !depth.nan() && !height.nan(),
    ensures
        slope_shows(width, depth, height) <==> width.rank() >= SLOPE_MIN_BITS && depth.rank()
            >= SLOPE_MIN_BITS && height.rank() >= SLOPE_MIN_BITS,
        slope_shows(width, depth, height) == slope_shows(height, width, depth),
{
}

/// Flipping keeps the first and the third corner and swaps the others.
pub proof fn law_flipping_swaps_two_corners<P>(q: Quad<P>)
    ensures
        flipped(q).a == q.a,
        flipped(q).c == q.c,
        flipped(q).b == q.d,
        flipped(q).d == q.b,
        outward(q, true) == q,
        outward(q, false) == flipped(q),
{
}

/// A slope's faces close it: each looks out of it, up, west, east and towards the
/// wall it leans on, where the ground falls towards lesser z.
pub proof fn law_slopes_look_outward(s: RampSite<int>)
    requires
        s.x0 < s.x1,
        s.z_low < s.z_high,
        s.ground <= s.y_low,
        s.y_low < s.y_high,
    ensures
        ({
            let w = wedge_of(s);
            &&& looks_along(w.top, P3 { x: 0, y: 1, z: 0 })
            &&& looks_along(w.back, P3 { x: 0, y: 0, z: 1 })
            &&& crate::map_render::turn_along(
                w.west.a,
                w.west.b,
                w.west.c,
                P3 { x: -1, y: 0, z: 0 },
            ) > 0
            &&& crate::map_render::turn_along(
                w.east.a,
                w.east.b,
                w.east.c,
                P3 { x: 1, y: 0, z: 0 },
            ) > 0
        }),
{
    let w = wedge_of(s);
    let (dx, dz, dy) = (s.x1 - s.x0, s.z_high - s.z_low, s.y_high - s.ground);
    assert(dx * dz > 0 && dx * dy > 0 && dy * dz > 0) by (nonlinear_arith)
        requires
            dx > 0,
            dy > 0,
            dz > 0,
    ;
    assert(looks_along(w.top, P3 { x: 0, y: 1, z: 0 })) by (nonlinear_arith)
        requires
            w == wedge_of(s),
            dx * dz > 0,
            dx == s.x1 - s.x0,
            dz == s.z_high - s.z_low,
    ;
    assert(looks_along(w.back, P3 { x: 0, y: 0, z: 1 })) by (nonlinear_arith)
        requires
            w == wedge_of(s),
            dx * dy > 0,
            dx == s.x1 - s.x0,
            dy == s.y_high - s.ground,
    ;
    assert(crate::map_render::turn_along(w.west.a, w.west.b, w.west.c, P3 { x: -1, y: 0, z: 0 })
        > 0 && crate::map_render::turn_along(
        w.east.a,
        w.east.b,
        w.east.c,
        P3 { x: 1, y: 0, z: 0 },
    ) > 0) by (nonlinear_arith)
        requires
            w == wedge_of(s),
            dy * dz > 0,
            dz == s.z_high - s.z_low,
            dy == s.y_high - s.ground,
    ;
}

/// A slope spans its site: its high edge lies along the wall and its low edge away
/// from it, its ends at either end, and its back stands on the ground.
pub proof fn law_slopes_span_their_site<T>(s: RampSite<T>)
    ensures
        ({
            let w = wedge_of(s);
            &&& w.top.a == P3 { x: s.x0, y: s.y_high, z: s.z_high }
            &&& w.top.b == P3 { x: s.x1, y: s.y_high, z: s.z_high }
            &&& w.top.c == P3 { x: s.x1, y: s.y_low, z: s.z_low }
            &&& w.top.d == P3 { x: s.x0, y: s.y_low, z: s.z_low }
            &&& w.west.a == w.top.a && w.west.b == w.top.d && w.west.c == w.back.a
            &&& w.east.a == w.top.b && w.east.c == w.top.c && w.east.b == w.back.b
            &&& w.back.c == w.top.b && w.back.d == w.top.a
            &&& w.back.a.y == s.ground && w.back.b.y == s.ground
            &&& w.back.a.x == s.x0 && w.back.b.x == s.x1
            &&& w.back.a.z == s.z_high && w.back.b.z == s.z_high
        }),
{
}

/// A slope that shows adds its ramp, its two ends and its back, in this order, each
/// with its own normal; one that does not adds nothing.
pub proof fn law_slopes_are_four_faces<T>(
    g: GeomView<T>,
    w: RampWedge<T>,
    fit: RampFit<T>,
    zero: T,
)
    requires
        fit.top.normal is Some,
        fit.west is Some,
        fit.east is Some,
        fit.back.normal is Some,
    ensures
        ({
            let r = with_wedge(g, w, fit, zero);
            let shows = slope_shows(fit.width, fit.depth, fit.height);
            let tri = |t: Tri<P3<T>>| seq![t.a, t.b, t.c];
            &&& !shows ==> r == g
            &&& shows ==> r.positions == g.positions + w.top.items() + tri(w.west) + tri(w.east)
                + w.back.items()
            &&& shows ==> r.normals == g.normals + Seq::new(4, |i: int| fit.top.normal->0)
                + Seq::new(3, |i: int| fit.west->0) + Seq::new(3, |i: int| fit.east->0) + Seq::new(
                4,
                |i: int| fit.back.normal->0,
            )
            &&& shows ==> r.uvs.len() == g.uvs.len() + 14 && r.indices.len() == g.indices.len() + 18
            &&& r.colors == g.colors
        }),
{
    let r = with_wedge(g, w, fit, zero);
    let tri = |t: Tri<P3<T>>| seq![t.a, t.b, t.c];
    if slope_shows(fit.width, fit.depth, fit.height) {
        assert(r.positions =~= g.positions + w.top.items() + tri(w.west) + tri(w.east)
            + w.back.items());
        assert(r.normals =~= g.normals + Seq::new(4, |i: int| fit.top.normal->0) + Seq::new(
            3,
            |i: int| fit.west->0,
        ) + Seq::new(3, |i: int| fit.east->0) + Seq::new(4, |i: int| fit.back.normal->0));
    }
}

/// A face without area is left out, and one whose plain order has none is flipped.
pub proof fn law_flat_faces_are_left_out<T>(
    g: GeomView<T>,
    q: Quad<P3<T>>,
    fit: QuadFit<T>,
    uvs: Quad<P2<T>>,
    t: Tri<P3<T>>,
    normal: Option<P3<T>>,
    zero: T,
)
    ensures
        fit.normal is None && fit.flipped is None ==> with_auto_quad(g, q, fit, uvs) == g,
        fit.normal is Some || fit.flipped is Some ==> with_auto_quad(g, q, fit, uvs).positions
            == g.positions + outward(q, fit.normal is Some).items(),
        fit.normal is Some ==> with_auto_quad(g, q, fit, uvs).normals == g.normals + Seq::new(
            4,
            |i: int| fit.normal->0,
        ),
        fit.normal is None && fit.flipped is Some ==> with_auto_quad(g, q, fit, uvs).normals
            == g.normals + Seq::new(4, |i: int| fit.flipped->0),
        normal is None ==> with_auto_triangle(g, t, normal, zero) == g,
        normal is Some ==> with_auto_triangle(g, t, normal, zero).positions == g.positions + seq![
            t.a,
            t.b,
            t.c,
        ],
{
    let r = with_auto_quad(g, q, fit, uvs);
    if fit.normal is Some {
        assert(r.normals =~= g.normals + Seq::new(4, |i: int| fit.normal->0));
    } else if fit.flipped is Some {
        assert(r.normals =~= g.normals + Seq::new(4, |i: int| fit.flipped->0));
    }
}

/// Adding a triangle keeps what the mesh had and adds three corners in order, each
/// with the normal, and one triangle over them.
pub proof fn law_triangles_are_added_behind<T>(
    g: GeomView<T>,
    t: Tri<P3<T>>,
    normal: P3<T>,
    zero: T,
    i: int,
)
    requires
        g.normals.len() == g.positions.len(),
        g.uvs.len() == g.positions.len(),
        g.positions.len() + 3 <= u32::MAX,
    ensures
        ({
            let r = with_triangle(g, t, normal, zero);
            let n = g.positions.len() as int;
            let m = g.indices.len() as int;
            &&& r.positions.len() == n + 3 && r.normals.len() == n + 3 && r.uvs.len() == n + 3
            &&& 0 <= i < n ==> r.positions[i] == g.positions[i] && r.normals[i] == g.normals[i]
                && r.uvs[i] == g.uvs[i]
            &&& r.positions[n] == t.a && r.positions[n + 1] == t.b && r.positions[n + 2] == t.c
            &&& n <= i < n + 3 ==> r.normals[i] == normal && r.uvs[i].u == zero && r.uvs[i].v == zero
            &&& r.indices.len() == m + 3
            &&& 0 <= i < m ==> r.indices[i] == g.indices[i]
            &&& r.indices[m] == n && r.indices[m + 1] == n + 1 && r.indices[m + 2] == n + 2
            &&& r.colors == g.colors
        }),
{
}

/// A coloured face is a face whose four vertices all have the colour; the colours
/// before it stay.
pub proof fn law_colored_faces_have_one_color<T>(
    g: GeomView<T>,
    q: Quad<P3<T>>,
    normal: P3<T>,
    color: Rgba<T>,
    zero: T,
    i: int,
)
    ensures
        ({
            let r = with_colored_face(g, q, normal, color, zero);
            let n = g.colors.len() as int;
            &&& r.positions == g.positions + seq![q.a, q.b, q.c, q.d]
            &&& r.colors.len() == n + 4
            &&& 0 <= i < n ==> r.colors[i] == g.colors[i]
            &&& n <= i < n + 4 ==> r.colors[i] == color
            &&& r.normals == g.normals + seq![normal, normal, normal, normal]
            &&& r.indices.len() == g.indices.len() + 6
        }),
{
}

/// A far pine's panels stand upright in its middle, from foot to top, and cross each
/// other; fronts look along +z and +x, and backs the other way.
pub proof fn law_far_pines_are_crossed_panels(s: CrossSite<int>)
    requires
        s.x_lo < s.x_hi,
        s.z_lo < s.z_hi,
        s.foot < s.top,
    ensures
        looks_along(cross_x(s), P3 { x: 0, y: 0, z: 1 }),
        looks_along(seen_from_behind(cross_x(s)), P3 { x: 0, y: 0, z: -1 }),
        looks_along(cross_z(s), P3 { x: 1, y: 0, z: 0 }),
        looks_along(seen_from_behind(cross_z(s)), P3 { x: -1, y: 0, z: 0 }),
        forall|i: int|
            0 <= i < 4 ==> (#[trigger] cross_x(s).items()[i]).z == s.z && (cross_x(s).items()[i].y
                == (if i < 2 {
                s.foot
            } else {
                s.top
            })),
        forall|i: int|
            0 <= i < 4 ==> (#[trigger] cross_z(s).items()[i]).x == s.x && (cross_z(s).items()[i].y
                == (if i < 2 {
                s.foot
            } else {
                s.top
            })),
{
    let (dx, dz, dy) = (s.x_hi - s.x_lo, s.z_hi - s.z_lo, s.top - s.foot);
    let (p, q) = (cross_x(s), cross_z(s));
    assert(dx * dy > 0 && dy * dz > 0) by (nonlinear_arith)
        requires
            dx > 0,
            dy > 0,
            dz > 0,
    ;
    assert(looks_along(p, P3 { x: 0, y: 0, z: 1 }) && looks_along(
        seen_from_behind(p),
        P3 { x: 0, y: 0, z: -1 },
    )) by (nonlinear_arith)
        requires
            p == cross_x(s),
            dx * dy > 0,
            dx == s.x_hi - s.x_lo,
            dy == s.top - s.foot,
    ;
    assert(looks_along(q, P3 { x: 1, y: 0, z: 0 }) && looks_along(
        seen_from_behind(q),
        P3 { x: -1, y: 0, z: 0 },
    )) by (nonlinear_arith)
        requires
            q == cross_z(s),
            dy * dz > 0,
            dz == s.z_hi - s.z_lo,
            dy == s.top - s.foot,
    ;
}

/// A far pine's mesh winds along its normals on all four faces.
pub proof fn law_far_pines_wind_along_their_normals(
    g: GeomView<int>,
    s: CrossSite<int>,
    uvs: Quad<P2<int>>,
    k: int,
)
    requires
        g.normals.len() == g.positions.len(),
        s.x_lo < s.x_hi,
        s.z_lo < s.z_hi,
        s.foot < s.top,
        0 <= k < 4,
    ensures
        ({
            let u = Units { zero: 0int, one: 1int, minus_one: -1int };
            let r = with_cross(g, s, u, uvs);
            &&& r.positions.len() == g.positions.len() + 16
            &&& r.positions == g.positions + cross_x(s).items() + seen_from_behind(
                cross_x(s),
            ).items() + cross_z(s).items() + seen_from_behind(cross_z(s)).items()
            &&& face_winds(r, g.positions.len() + 4 * k)
        }),
{
    law_far_pines_are_crossed_panels(s);
    let u = Units { zero: 0int, one: 1int, minus_one: -1int };
    let r = with_cross(g, s, u, uvs);
    let n = g.positions.len() as int;
    let (p, q) = (cross_x(s), cross_z(s));
    let faces = seq![p, seen_from_behind(p), q, seen_from_behind(q)];
    let f = faces[k];
    assert(r.positions[n + 4 * k] == f.a);
    assert(r.positions[n + 4 * k + 1] == f.b);
    assert(r.positions[n + 4 * k + 2] == f.c);
    assert(r.positions[n + 4 * k + 3] == f.d);
    let way = if k == 0 {
        P3 { x: 0int, y: 0int, z: 1int }
    } else if k == 1 {
        P3 { x: 0int, y: 0int, z: -1int }
    } else if k == 2 {
        P3 { x: 1int, y: 0int, z: 0int }
    } else {
        P3 { x: -1int, y: 0int, z: 0int }
    };
    assert(r.normals[n + 4 * k] == way);
    assert(looks_along(f, way));
    assert(f == (Quad { a: f.a, b: f.b, c: f.c, d: f.d }));
}

proof fn lemma_cylinder_size<T>(g: GeomView<T>, rim: Rim<T>, uvs: Quad<P2<T>>, k: int)
    requires
        0 <= k,
        g.normals.len() == g.positions.len(),
    ensures
        with_cylinder(g, rim, uvs, k).positions.len() == g.positions.len() + 4 * k,
        with_cylinder(g, rim, uvs, k).normals.len() == g.positions.len() + 4 * k,
        with_cylinder(g, rim, uvs, k).indices.len() == g.indices.len() + 6 * k,
    decreases k,
{
    if k > 0 {
        lemma_cylinder_size(g, rim, uvs, k - 1);
    }
}

/// Side `j` of a cylinder runs between neighbours on the lower and the upper rim, in
/// the plain order where that agrees, and carries its own normal.
pub proof fn law_cylinders_follow_their_rims<T>(
    g: GeomView<T>,
    rim: Rim<T>,
    uvs: Quad<P2<T>>,
    k: int,
    j: int,
    c: int,
)
    requires
        rim.wf(),
        0 <= j < k <= rim.sides(),
        0 <= c < 4,
        g.normals.len() == g.positions.len(),
    ensures
        ({
            let r = with_cylinder(g, rim, uvs, k);
            let first = g.positions.len() + 4 * j;
            &&& r.positions.len() == g.positions.len() + 4 * k
            &&& r.positions[first] == rim.lower@[j]
            &&& r.positions[first + 2] == rim.upper@[j + 1]
            &&& rim.agrees@[j] ==> r.positions[first + 1] == rim.lower@[j + 1] && r.positions[first
                + 3] == rim.upper@[j]
            &&& !rim.agrees@[j] ==> r.positions[first + 1] == rim.upper@[j] && r.positions[first + 3]
                == rim.lower@[j + 1]
            &&& r.normals[first + c] == rim.normals@[j]
        }),
    decreases k,
{
    let before = with_cylinder(g, rim, uvs, k - 1);
    let r = with_cylinder(g, rim, uvs, k);
    let first = g.positions.len() + 4 * j;
    lemma_cylinder_size(g, rim, uvs, k - 1);
    if j < k - 1 {
        law_cylinders_follow_their_rims(g, rim, uvs, k - 1, j, c);
        assert(r.positions[first] == before.positions[first]);
        assert(r.positions[first + 1] == before.positions[first + 1]);
        assert(r.positions[first + 2] == before.positions[first + 2]);
        assert(r.positions[first + 3] == before.positions[first + 3]);
        assert(r.normals[first + c] == before.normals[first + c]);
    } else {
        let o = rim.panel(j);
        assert(r.positions[first] == o.items()[0]);
        assert(r.positions[first + 1] == o.items()[1]);
        assert(r.positions[first + 2] == o.items()[2]);
        assert(r.positions[first + 3] == o.items()[3]);
        assert(r.normals[first + c] == crate::map_render::four(rim.normals@[j])[c]);
    }
}

proof fn lemma_cone_size<T>(g: GeomView<T>, rim: Rim<T>, apex: P3<T>, zero: T, k: int)
    requires
        0 <= k,
        g.normals.len() == g.positions.len(),
    ensures
        with_cone(g, rim, apex, zero, k).positions.len() == g.positions.len() + 3 * k,
        with_cone(g, rim, apex, zero, k).normals.len() == g.positions.len() + 3 * k,
    decreases k,
{
    if k > 0 {
        lemma_cone_size(g, rim, apex, zero, k - 1);
    }
}

/// Side `j` of a cone runs between neighbours on the rim and ends in the apex, and
/// carries its own normal.
pub proof fn law_cones_end_in_their_apex<T>(
    g: GeomView<T>,
    rim: Rim<T>,
    apex: P3<T>,
    zero: T,
    k: int,
    j: int,
    c: int,
)
    requires
        rim.wf(),
        0 <= j < k <= rim.sides(),
        0 <= c < 3,
        g.normals.len() == g.positions.len(),
    ensures
        ({
            let r = with_cone(g, rim, apex, zero, k);
            let first = g.positions.len() + 3 * j;
            &&& r.positions.len() == g.positions.len() + 3 * k
            &&& r.positions[first + 2] == apex
            &&& rim.agrees@[j] ==> r.positions[first] == rim.lower@[j] && r.positions[first + 1]
                == rim.lower@[j + 1]
            &&& !rim.agrees@[j] ==> r.positions[first] == rim.lower@[j + 1] && r.positions[first + 1]
                == rim.lower@[j]
            &&& r.normals[first + c] == rim.normals@[j]
        }),
    decreases k,
{
    let before = with_cone(g, rim, apex, zero, k - 1);
    let r = with_cone(g, rim, apex, zero, k);
    let first = g.positions.len() + 3 * j;
    lemma_cone_size(g, rim, apex, zero, k - 1);
    if j < k - 1 {
        law_cones_end_in_their_apex(g, rim, apex, zero, k - 1, j, c);
        assert(r.positions[first] == before.positions[first]);
        assert(r.positions[first + 1] == before.positions[first + 1]);
        assert(r.positions[first + 2] == before.positions[first + 2]);
        assert(r.normals[first + c] == before.normals[first + c]);
    } else {
        let t = rim.slant(apex, j);
        let n = rim.normals@[j];
        assert(r.positions[first] == seq![t.a, t.b, t.c][0]);
        assert(r.positions[first + 1] == seq![t.a, t.b, t.c][1]);
        assert(r.positions[first + 2] == seq![t.a, t.b, t.c][2]);
        assert(r.normals[first + c] == seq![n, n, n][c]);
    }
}

/// The corners of an upright box.
pub open spec fn upright_corners<T>(b: crate::map_render::Aabb<T>) -> BoxCorners<T> {
    BoxCorners {
        lll: P3 { x: b.x0, y: b.y0, z: b.z0 },
        llh: P3 { x: b.x0, y: b.y0, z: b.z1 },
        lhl: P3 { x: b.x0, y: b.y1, z: b.z0 },
        lhh: P3 { x: b.x0, y: b.y1, z: b.z1 },
        hll: P3 { x: b.x1, y: b.y0, z: b.z0 },
        hlh: P3 { x: b.x1, y: b.y0, z: b.z1 },
        hhl: P3 { x: b.x1, y: b.y1, z: b.z0 },
        hhh: P3 { x: b.x1, y: b.y1, z: b.z1 },
    }
}

/// A box that was turned by nothing has the faces of the upright one.
pub proof fn law_turned_faces_are_box_faces<T>(b: crate::map_render::Aabb<T>, k: int)
    requires
        0 <= k < 6,
    ensures
        turned_face(upright_corners(b), k) == crate::map_render::box_face(b, k),
{
}

/// Face `j` of a turned box is that face, outward, with its own normal.
pub proof fn law_turned_boxes_have_all_faces<T>(
    g: GeomView<T>,
    b: BoxCorners<T>,
    fits: Seq<FaceFit<T>>,
    uvs: Quad<P2<T>>,
    k: int,
    j: int,
    c: int,
)
    requires
        g.normals.len() == g.positions.len(),
        0 <= j < k <= 6,
        0 <= c < 4,
    ensures
        ({
            let r = with_turned_box(g, b, fits, uvs, k);
            let at = g.positions.len() + 4 * j + c;
            &&& r.positions.len() == g.positions.len() + 4 * k
            &&& r.positions[at] == outward(turned_face(b, j), fits[j].agrees).items()[c]
            &&& r.normals[at] == fits[j].normal
        }),
    decreases k,
{
    let before = with_turned_box(g, b, fits, uvs, k - 1);
    let r = with_turned_box(g, b, fits, uvs, k);
    let at = g.positions.len() + 4 * j + c;
    lemma_turned_box_size(g, b, fits, uvs, k - 1);
    if j < k - 1 {
        law_turned_boxes_have_all_faces(g, b, fits, uvs, k - 1, j, c);
        assert(r.positions[at] == before.positions[at]);
        assert(r.normals[at] == before.normals[at]);
    } else {
        assert(r.positions[at] == outward(turned_face(b, j), fits[j].agrees).items()[c]);
        assert(r.normals[at] == crate::map_render::four(fits[j].normal)[c]);
    }
}

/// A segment of the ridge goes from foot to peak; the snow line cuts it in two that
/// meet on it.
pub proof fn law_snow_lies_on_the_rock<T>(s: RidgeSegment<T>)
    ensures
        s.body().a == s.foot0 && s.body().b == s.foot1,
        s.body().c == s.peak1 && s.body().d == s.peak0,
        s.rock().a == s.body().a && s.rock().b == s.body().b,
        s.cap().c == s.body().c && s.cap().d == s.body().d,
        s.rock().d == s.cap().a && s.rock().c == s.cap().b,
        s.cap().a == s.snow0 && s.cap().b == s.snow1,
{
}

/// Without snow a segment is one face of rock; with snow it is rock, and then snow
/// in its own colour.
pub proof fn law_ridges_are_rock_and_snow<T>(
    g: GeomView<T>,
    s: RidgeSegment<T>,
    fit: RidgeFit<T>,
    snow: bool,
    zero: T,
    i: int,
)
    ensures
        ({
            let r = with_ridge_segment(g, s, fit, snow, zero);
            let n = g.colors.len() as int;
            &&& !snow ==> r.positions == g.positions + outward(s.body(), fit.body.agrees).items()
            &&& snow ==> r.positions == g.positions + outward(s.rock(), fit.rock.agrees).items()
                + outward(s.cap(), fit.cap.agrees).items()
            &&& !snow ==> r.normals == g.normals + Seq::new(4, |j: int| fit.body.normal)
            &&& snow ==> r.normals == g.normals + Seq::new(4, |j: int| fit.rock.normal) + Seq::new(
                4,
                |j: int| fit.cap.normal,
            )
            &&& r.colors.len() == n + (if snow {
                8int
            } else {
                4
            })
            &&& 0 <= i < n ==> r.colors[i] == g.colors[i]
            &&& n <= i < n + 4 ==> r.colors[i] == fit.rock_color
            &&& snow && n + 4 <= i < n + 8 ==> r.colors[i] == fit.snow_color
        }),
{
    let r = with_ridge_segment(g, s, fit, snow, zero);
    if snow {
        assert(r.normals =~= g.normals + Seq::new(4, |j: int| fit.rock.normal) + Seq::new(
            4,
            |j: int| fit.cap.normal,
        ));
    } else {
        assert(r.normals =~= g.normals + Seq::new(4, |j: int| fit.body.normal));
    }
}

/// Where props may stand, by distance: a pine past the edge along either axis, a
/// rock on it as well, and both on any floor that cannot be walked.
pub proof fn law_props_stand_outside_or_off_the_floor(site: PropSite)
    requires
        !site.x.nan() && !site.z.nan() && !site.edge.nan(),
    ensures
        ({
            let dx = if site.x.rank() < 0 {
                -site.x.rank()
            } else {
                site.x.rank()
            };
            let dz = if site.z.rank() < 0 {
                -site.z.rank()
            } else {
                site.z.rank()
            };
            let e = site.edge.rank();
            &&& site.fits_pine() <==> dx > e || dz > e || !site.walkable
            &&& site.fits_rock() <==> dx >= e || dz >= e || !site.walkable
            &&& site.fits_pine() ==> site.fits_rock()
        }),
{
}

/// Pines are apart: none of the squared distances is below the least.
pub proof fn law_pines_keep_their_distance(gaps: Seq<F32>, i: int)
    requires
        all_spaced(gaps),
        0 <= i < gaps.len(),
    ensures
        gaps[i].nan() || gaps[i].rank() >= PINE_SPACING_BITS,
{
    assert(!gaps[i].below(F32 { bits: PINE_SPACING_BITS }));
}

/// A pine that is too close to another does not fit.
pub proof fn law_close_pines_do_not_fit(t: PineTry, i: int)
    requires
        0 <= i < t.gaps.len(),
        !t.gaps[i].nan(),
        t.gaps[i].rank() < PINE_SPACING_BITS,
    ensures
        !t.fits(),
{
    assert(t.gaps[i].below(F32 { bits: PINE_SPACING_BITS }));
}

/// A try that fits adds the pine where it was tried, turned and sized as drawn; one
/// that does not changes nothing.
pub proof fn law_tries_plant_what_fits(before: Seq<PropPose>, t: PineTry)
    ensures
        !t.site.fits_pine() || !all_spaced(t.gaps) ==> planted_one(before, t) == before,
        t.site.fits_pine() && all_spaced(t.gaps) ==> {
            let after = planted_one(before, t);
            &&& after.len() == before.len() + 1
            &&& after.drop_last() == before
            &&& after.last().x == t.site.x
            &&& after.last().z == t.site.z
            &&& after.last().yaw == t.yaw
            &&& after.last().scale == t.scale
        },
{
    assert(before.push(t.pose()).drop_last() =~= before);
}

/// Pines are those of the tries that fit, in the order they were tried.
pub proof fn law_pines_are_the_tries_that_fit(tries: Seq<PineTry>, n: int)
    requires
        0 <= n <= tries.len(),
    ensures
        planted(tries, n) == tries.take(n).filter(|t: PineTry| t.fits()).map_values(
            |t: PineTry| t.pose(),
        ),
    decreases n,
{
    let good = |t: PineTry| t.fits();
    let pose = |t: PineTry| t.pose();
    reveal(Seq::filter);
    if n > 0 {
        law_pines_are_the_tries_that_fit(tries, n - 1);
        assert(tries.take(n).drop_last() =~= tries.take(n - 1));
        assert(tries.take(n).last() == tries[n - 1]);
        let kept = tries.take(n - 1).filter(good);
        assert(kept.push(tries[n - 1]).map_values(pose) =~= kept.map_values(pose).push(
            tries[n - 1].pose(),
        ));
    } else {
        assert(tries.take(n).filter(good).map_values(pose) =~= Seq::empty());
    }
}

/// Candidates for a rock go outwards in rings of eight about the point, straight
/// ways before diagonal ones, and every ring holds with each offset its opposite.
pub proof fn law_candidates_go_outwards(k: int)
    requires
        0 <= k < SNAP_CANDIDATES,
    ensures
        ({
            let (x, z) = snap_step(k);
            let ax = if x < 0 {
                -x
            } else {
                x
            };
            let az = if z < 0 {
                -z
            } else {
                z
            };
            let far = if ax < az {
                az
            } else {
                ax
            };
            let mate = if k == 0 {
                0
            } else if (k - 1) % 2 == 0 {
                k + 1
            } else {
                k - 1
            };
            &&& k == 0 <==> far == 0
            &&& k > 0 ==> 8 * (far - 1) < k <= 8 * far
            &&& k > 0 ==> (ax == 0 || az == 0 <==> k - 8 * (far - 1) <= 4)
            &&& ax == 0 || az == 0 || ax == az
            &&& k > 0 && (k - 1) % 8 < 2 ==> z == 0
            &&& k > 0 && 2 <= (k - 1) % 8 < 4 ==> x == 0
            &&& k > 0 && 4 <= (k - 1) % 8 < 6 ==> x == z
            &&& k > 0 && (k - 1) % 8 >= 6 ==> x == -z
            &&& snap_step(mate) == (-x, -z)
        }),
{
}

proof fn lemma_wide_product_is_undone(a: u64, b: u64)
    requires
        (a * POSE_HASH_PRIME) % 0x1_0000_0000_0000_0000 == (b * POSE_HASH_PRIME)
            % 0x1_0000_0000_0000_0000,
    ensures
        a == b,
{
    let m = 0x1_0000_0000_0000_0000int;
    let c = POSE_HASH_PRIME as int;
    let back = 13001286669926045051int;
    let turns = 12398993177650int;
    assert(c * back == 1 + turns * m);
    let (p, q) = (a * c, b * c);
    let t = p / m - q / m;
    let d = a - b;
    assert(d * c == m * t) by (nonlinear_arith)
        requires
            p == a * c,
            q == b * c,
            d == a - b,
            p == m * (p / m) + p % m,
            q == m * (q / m) + q % m,
            p % m == q % m,
            t == p / m - q / m,
    ;
    let s = t * back - d * turns;
    assert(d == m * s) by (nonlinear_arith)
        requires
            d * c == m * t,
            c * back == 1 + turns * m,
            s == t * back - d * turns,
    ;
    assert(s == 0) by (nonlinear_arith)
        requires
            d == m * s,
            m == 0x1_0000_0000_0000_0000,
            -m < d < m,
    ;
}

/// Mixing loses nothing: the fingerprint tells apart what was there before and what
/// is mixed in.
pub proof fn law_mixing_keeps_apart(g: u64, h: u64, a: u32, b: u32)
    ensures
        mixed(g, a) == mixed(h, a) <==> g == h,
        mixed(g, a) == mixed(g, b) <==> a == b,
{
    let m = 0x1_0000_0000_0000_0000int;
    let (x, y, z) = (g ^ (a as u64), h ^ (a as u64), g ^ (b as u64));
    let (p, q, r) = (x * POSE_HASH_PRIME, y * POSE_HASH_PRIME, z * POSE_HASH_PRIME);
    assert(0 <= p % m < m && 0 <= q % m < m && 0 <= r % m < m);
    if mixed(g, a) == mixed(h, a) {
        lemma_wide_product_is_undone(x, y);
        assert(g ^ (a as u64) == h ^ (a as u64) ==> g == h) by (bit_vector);
    }
    if mixed(g, a) == mixed(g, b) {
        lemma_wide_product_is_undone(x, z);
        assert(g ^ (a as u64) == g ^ (b as u64) ==> a == b) by (bit_vector);
    }
}

/// Exactly one of the four numbers of a pose differs.
pub open spec fn one_differs(p: PropPose, q: PropPose) -> bool {
    ||| p.x != q.x && p.z == q.z && p.yaw == q.yaw && p.scale == q.scale
    ||| p.x == q.x && p.z != q.z && p.yaw == q.yaw && p.scale == q.scale
    ||| p.x == q.x && p.z == q.z && p.yaw != q.yaw && p.scale == q.scale
    ||| p.x == q.x && p.z == q.z && p.yaw == q.yaw && p.scale != q.scale
}

/// A fingerprint tells of any single change: move, turn or size one prop, and it is
/// another.
pub proof fn law_fingerprints_tell_of_a_change(
    a: Seq<PropPose>,
    b: Seq<PropPose>,
    n: int,
    k: int,
)
    requires
        0 <= k < n <= a.len(),
        a.len() == b.len(),
        forall|i: int| 0 <= i < n && i != k ==> #[trigger] a[i] == b[i],
        one_differs(a[k], b[k]),
    ensures
        poses_hash(a, n) != poses_hash(b, n),
    decreases n,
{
    let (g, h) = (poses_hash(a, n - 1), poses_hash(b, n - 1));
    let (p, q) = (a[n - 1], b[n - 1]);
    let (g1, h1) = (mixed(g, p.x.bits), mixed(h, q.x.bits));
    let (g2, h2) = (mixed(g1, p.z.bits), mixed(h1, q.z.bits));
    let (g3, h3) = (mixed(g2, p.yaw.bits), mixed(h2, q.yaw.bits));
    if k < n - 1 {
        law_fingerprints_tell_of_a_change(a, b, n - 1, k);
        assert(a[n - 1] == b[n - 1]);
    } else {
        lemma_same_fingerprint(a, b, n - 1);
    }
    law_mixing_keeps_apart(g, h, p.x.bits, q.x.bits);
    law_mixing_keeps_apart(g1, h1, p.z.bits, q.z.bits);
    law_mixing_keeps_apart(g2, h2, p.yaw.bits, q.yaw.bits);
    law_mixing_keeps_apart(g3, h3, p.scale.bits, q.scale.bits);
}

proof fn lemma_same_fingerprint(a: Seq<PropPose>, b: Seq<PropPose>, n: int)
    requires
        n <= a.len(),
        a.len() == b.len(),
        forall|i: int| 0 <= i < n ==> #[trigger] a[i] == b[i],
    ensures
        poses_hash(a, n) == poses_hash(b, n),
    decreases n,
{
    if n > 0 {
        lemma_same_fingerprint(a, b, n - 1);
    }
}

/// A flat image repeats its colour pixel by pixel, opaque.
pub proof fn law_flat_images_repeat_their_color(c: Rgb, k: int)
    requires
        0 <= k,
    ensures
        flat_byte(c, 4 * k) == c.r,
        flat_byte(c, 4 * k + 1) == c.g,
        flat_byte(c, 4 * k + 2) == c.b,
        flat_byte(c, 4 * k + 3) == 255,
{
}

} // verus!
