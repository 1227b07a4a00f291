//! Which zombies get full limb animation, frame by frame.
//!
//! Distances are measured every few frames, staggered by figure. Bands change
//! only then, with hysteresis; in addition only the nearest few may move their
//! limbs.

use vstd::prelude::*;
use crate::models::{anim_lod_hysteresis, AnimLod, LOD_DIST_PERIOD, LOD_FULL_BITS, LOD_FULL_CAP};
use crate::scalar::F32;

verus! {

/// The animation state of one zombie.
#[derive(Clone, Copy, Debug, PartialEq, Eq, Structural)]
pub struct RigLod {
    pub lod: AnimLod,
    /// Last measured distance from the camera.
    pub dist: F32,
    /// Frames until the next measurement.
    pub refresh_in: u8,
}

/// A figure's state after this frame's distance tick.
pub open spec fn ticked(rig: RigLod, measured: F32) -> RigLod {
    if rig.refresh_in == 0 {
        RigLod { dist: measured, refresh_in: LOD_DIST_PERIOD, ..rig }
    } else {
        RigLod { refresh_in: (rig.refresh_in - 1) as u8, ..rig }
    }
}

/// The distance was measured this frame.
pub open spec fn refreshing(rig: RigLod) -> bool {
    rig.refresh_in == LOD_DIST_PERIOD
}

/// The figure competes for full animation: it was measured this frame or is
/// fully animated, and it is near enough.
pub open spec fn competes(rig: RigLod) -> bool {
    (refreshing(rig) || rig.lod is Full) && crate::models::within(rig.dist, LOD_FULL_BITS)
}

/// Figure `i` comes before figure `j`: nearer, or as near and listed earlier.
pub open spec fn comes_before(rigs: Seq<RigLod>, i: int, j: int) -> bool {
    rigs[i].dist.rank() < rigs[j].dist.rank() || (rigs[i].dist.rank() == rigs[j].dist.rank() && i
        < j)
}

/// How many of the first `n` figures compete and come before figure `i`.
pub open spec fn ahead(rigs: Seq<RigLod>, i: int, n: int) -> nat
    decreases n,
{
    if n <= 0 {
        0
    } else {
        ahead(rigs, i, n - 1) + (if competes(rigs[n - 1]) && comes_before(rigs, n - 1, i) {
            1nat
        } else {
            0nat
        })
    }
}

/// Figure `i` is among the nearest that may be fully animated.
pub open spec fn may_be_full(rigs: Seq<RigLod>, i: int) -> bool {
    competes(rigs[i]) && ahead(rigs, i, rigs.len() as int) < LOD_FULL_CAP
}

/// The band that a figure's distance gives it, whoever else competes: it changes
/// only where the distance was measured this frame, and then with hysteresis.
pub open spec fn band_by_distance(rig: RigLod) -> AnimLod {
    if refreshing(rig) {
        crate::models::next_band(rig.lod, rig.dist)
    } else {
        rig.lod
    }
}

/// The band of figure `i` this frame, given the ticked states.
pub open spec fn decided(rigs: Seq<RigLod>, i: int) -> AnimLod {
    let lod = band_by_distance(rigs[i]);
    if lod is Full && !may_be_full(rigs, i) {
        AnimLod::Bob
    } else {
        lod
    }
}

/// Figure `i` makes a transition: its distance gives it another band, and it
/// takes another band. Losing full animation to nearer figures is none.
pub open spec fn makes_transition(rigs: Seq<RigLod>, i: int) -> bool {
    band_by_distance(rigs[i]) != rigs[i].lod && decided(rigs, i) != rigs[i].lod
}

/// How many of the first `n` figures make a transition.
pub open spec fn transitions(rigs: Seq<RigLod>, n: int) -> nat
    decreases n,
{
    if n <= 0 {
        0
    } else {
        transitions(rigs, n - 1) + (if makes_transition(rigs, n - 1) {
            1nat
        } else {
            0nat
        })
    }
}

/// All states after this frame's distance tick.
pub open spec fn all_ticked(rigs: Seq<RigLod>, measured: Seq<F32>) -> Seq<RigLod> {
    Seq::new(rigs.len(), |i: int| ticked(rigs[i], measured[i]))
}

/// All states after this frame.
pub open spec fn all_decided(rigs: Seq<RigLod>) -> Seq<RigLod> {
    Seq::new(rigs.len(), |i: int| RigLod { lod: decided(rigs, i), ..rigs[i] })
}

/// Which of the first `n` figures change band, in order.
pub open spec fn changed(rigs: Seq<RigLod>, n: int) -> Seq<usize>
    decreases n,
{
    if n <= 0 {
        Seq::empty()
    } else if decided(rigs, n - 1) != rigs[n - 1].lod {
        changed(rigs, n - 1).push((n - 1) as usize)
    } else {
        changed(rigs, n - 1)
    }
}

/// Per-frame bookkeeping of transitions between the bands; that the cap takes
/// full animation from a figure is not counted.
#[derive(Clone, Copy, Debug, PartialEq, Eq, Structural)]
pub struct LodMetrics {
    pub frame: u32,
    /// Transitions this frame.
    pub transitions_this_frame: u32,
    /// Most transitions in one frame since the last reset.
    pub peak_transitions: u32,
    /// Transitions over all frames since the last reset.
    pub total_transitions: u64,
    /// Zombies present in the last pass.
    pub zombie_roots: u32,
}

impl Default for LodMetrics {
    fn default() -> (r: Self)
        ensures
            r == (LodMetrics {
                frame: 0,
                transitions_this_frame: 0,
                peak_transitions: 0,
                total_transitions: 0,
                zombie_roots: 0,
            }),
    {
        LodMetrics {
            frame: 0,
            transitions_this_frame: 0,
            peak_transitions: 0,
            total_transitions: 0,
            zombie_roots: 0,
        }
    }
}

impl LodMetrics {
    pub fn reset_counters(&mut self)
        ensures
            *final(self) == (LodMetrics {
                frame: 0,
                transitions_this_frame: 0,
                peak_transitions: 0,
                total_transitions: 0,
                zombie_roots: 0,
            }),
    {
        self.frame = 0;
        self.transitions_this_frame = 0;
        self.peak_transitions = 0;
        self.total_transitions = 0;
        self.zombie_roots = 0;
    }
}

fn count_ahead(rigs: &Vec<RigLod>, i: usize) -> (r: usize)
    requires
        i < rigs@.len(),
    ensures
        r == ahead(rigs@, i as int, rigs@.len() as int),
{
    let mine: i64 = rigs[i].dist.order_rank();
    let mut count: usize = 0;
    for j in 0..rigs.len()
        invariant
            i < rigs@.len(),
            mine == rigs@[i as int].dist.rank(),
            count == ahead(rigs@, i as int, j as int),
            count <= j,
    {
        if is_competing(&rigs[j]) {
            let theirs: i64 = rigs[j].dist.order_rank();
            if theirs < mine || (theirs == mine && j < i) {
                count += 1;
            }
        }
    }
    count
}

fn is_competing(rig: &RigLod) -> (r: bool)
    ensures
        r == competes(*rig),
{
    (rig.refresh_in == LOD_DIST_PERIOD || rig.lod == AnimLod::Full) && rig.dist.le(
        F32::from_bits(LOD_FULL_BITS),
    )
}

/// One frame of band selection for the horde. `measured` holds each figure's
/// current distance; it is taken over where a measurement is due. The result
/// lists the figures that change band; the counters leave out those among them
/// that only the cap demotes. A distance that is no number is never near enough.
pub fn animate_rigs(rigs: &mut Vec<RigLod>, measured: &Vec<F32>, metrics: &mut LodMetrics) -> (r: Vec<usize>)
    requires
        old(rigs)@.len() == measured@.len(),
        old(rigs)@.len() <= u32::MAX,
        old(metrics).total_transitions + old(rigs)@.len() <= u64::MAX,
    ensures
        final(rigs)@ == all_decided(all_ticked(old(rigs)@, measured@)),
        r@ == changed(all_ticked(old(rigs)@, measured@), old(rigs)@.len() as int),
        final(metrics).frame == (if old(metrics).frame == u32::MAX {
            0
        } else {
            old(metrics).frame + 1
        }),
        final(metrics).zombie_roots == old(rigs)@.len(),
        ({
            let moved = transitions(all_ticked(old(rigs)@, measured@), old(rigs)@.len() as int);
            &&& final(metrics).transitions_this_frame == moved
            &&& final(metrics).total_transitions == old(metrics).total_transitions + moved
            &&& final(metrics).peak_transitions == (if old(metrics).peak_transitions < moved {
                moved as u32
            } else {
                old(metrics).peak_transitions
            })
        }),
{
    let ghost before = rigs@;
    let ghost t = all_ticked(before, measured@);
    let n: usize = rigs.len();
    let mut now: Vec<RigLod> = Vec::new();
    for i in 0..n
        invariant
            n == rigs@.len(),
            rigs@ == before,
            before.len() == measured@.len(),
            t == all_ticked(before, measured@),
            now@ == t.take(i as int),
    {
        let rig = rigs[i];
        if rig.refresh_in == 0 {
            now.push(RigLod { lod: rig.lod, dist: measured[i], refresh_in: LOD_DIST_PERIOD });
        } else {
            now.push(RigLod { lod: rig.lod, dist: rig.dist, refresh_in: rig.refresh_in - 1 });
        }
        assert(now@ =~= t.take(i + 1));
    }
    assert(now@ =~= t);
    let mut out: Vec<usize> = Vec::new();
    let mut moved: u32 = 0;
    for i in 0..n
        invariant
            n == rigs@.len(),
            before.len() == n,
            n <= u32::MAX,
            now@ == t,
            t.len() == n,
            forall|j: int| i <= j < n ==> rigs@[j] == before[j],
            forall|j: int|
                0 <= j < i ==> (#[trigger] rigs@[j]) == (RigLod { lod: decided(t, j), ..t[j] }),
            out@ == changed(t, i as int),
            moved == transitions(t, i as int),
            moved <= i,
    {
        let rig = now[i];
        let by_distance = if rig.refresh_in == LOD_DIST_PERIOD {
            anim_lod_hysteresis(rig.lod, rig.dist)
        } else {
            rig.lod
        };
        let mut lod = by_distance;
        if lod == AnimLod::Full && !(is_competing(&rig) && count_ahead(&now, i) < LOD_FULL_CAP) {
            lod = AnimLod::Bob;
        }
        if lod != rig.lod {
            out.push(i);
            if by_distance != rig.lod {
                moved += 1;
            }
        }
        rigs.set(i, RigLod { lod, dist: rig.dist, refresh_in: rig.refresh_in });
    }
    assert(rigs@ =~= all_decided(t));
    metrics.frame = metrics.frame.wrapping_add(1);
    metrics.transitions_this_frame = moved;
    metrics.zombie_roots = n as u32;
    metrics.total_transitions = metrics.total_transitions + moved as u64;
    if metrics.peak_transitions < moved {
        metrics.peak_transitions = moved;
    }
    out
}

/// How many of the first `n` figures are fully animated.
pub open spec fn full_count(rigs: Seq<RigLod>, n: int) -> nat
    decreases n,
{
    if n <= 0 {
        0
    } else {
        full_count(rigs, n - 1) + (if rigs[n - 1].lod is Full {
            1nat
        } else {
            0nat
        })
    }
}

/// After any frame at most the capped number of zombies is fully animated.
pub proof fn law_full_animation_is_capped(rigs: Seq<RigLod>)
    ensures
        full_count(all_decided(rigs), rigs.len() as int) <= LOD_FULL_CAP,
{
    lemma_full_are_placed(rigs, rigs.len() as int);
    lemma_places_bounded(rigs, LOD_FULL_CAP as nat, rigs.len() as int);
}

/// Who is fully animated competes, is within the near band, and has fewer than
/// the capped number of competitors ahead; who competes, is in the band, and
/// has as few ahead is never demoted.
pub proof fn law_full_goes_to_the_nearest(rigs: Seq<RigLod>, i: int)
    requires
        0 <= i < rigs.len(),
    ensures
        decided(rigs, i) is Full ==> may_be_full(rigs, i),
        may_be_full(rigs, i) && rigs[i].lod is Full ==> decided(rigs, i) is Full,
{
}

/// Between two measurements a band changes only by losing its place among the
/// nearest.
pub proof fn law_bands_change_only_on_refresh(rigs: Seq<RigLod>, i: int)
    requires
        0 <= i < rigs.len(),
        !refreshing(rigs[i]),
        decided(rigs, i) != rigs[i].lod,
    ensures
        rigs[i].lod is Full,
        decided(rigs, i) is Bob,
        !may_be_full(rigs, i),
{
}

/// How many of the first `n` figures were measured this frame.
pub open spec fn measured_count(rigs: Seq<RigLod>, n: int) -> nat
    decreases n,
{
    if n <= 0 {
        0
    } else {
        measured_count(rigs, n - 1) + (if refreshing(rigs[n - 1]) {
            1nat
        } else {
            0nat
        })
    }
}

/// Only a measurement makes a transition: in no frame are there more transitions
/// than figures measured in it, and measurements are staggered.
pub proof fn law_transitions_need_a_measurement(rigs: Seq<RigLod>, n: int)
    requires
        0 <= n <= rigs.len(),
    ensures
        transitions(rigs, n) <= measured_count(rigs, n) <= n,
    decreases n,
{
    if n > 0 {
        law_transitions_need_a_measurement(rigs, n - 1);
    }
}

/// A horde in steady state makes no transitions, however many it is and whatever
/// the cap takes away: every figure keeps its distance, and its band is the one
/// that the distance gives it, or it bobs within full range because all places
/// are taken.
pub proof fn law_steady_horde_makes_no_transitions(rigs: Seq<RigLod>, measured: Seq<F32>, n: int)
    requires
        rigs.len() == measured.len(),
        0 <= n <= rigs.len(),
        forall|i: int| 0 <= i < rigs.len() ==> #[trigger] measured[i] == rigs[i].dist,
        forall|i: int|
            0 <= i < rigs.len() ==> {
                let rig = #[trigger] rigs[i];
                let there = crate::models::next_band(rig.lod, rig.dist);
                there == rig.lod || (there is Full && !may_be_full(all_ticked(rigs, measured), i))
            },
    ensures
        transitions(all_ticked(rigs, measured), n) == 0,
    decreases n,
{
    if n > 0 {
        law_steady_horde_makes_no_transitions(rigs, measured, n - 1);
        let t = all_ticked(rigs, measured);
        assert(measured[n - 1] == rigs[n - 1].dist);
        assert(t[n - 1].lod == rigs[n - 1].lod && t[n - 1].dist == rigs[n - 1].dist);
    }
}

/// How many of the first `n` figures compete with fewer than `k` ahead.
spec fn placed_below(rigs: Seq<RigLod>, k: nat, n: int) -> nat
    decreases n,
{
    if n <= 0 {
        0
    } else {
        placed_below(rigs, k, n - 1) + (if competes(rigs[n - 1]) && ahead(
            rigs,
            n - 1,
            rigs.len() as int,
        ) < k {
            1nat
        } else {
            0nat
        })
    }
}

/// How many of the first `n` figures compete with exactly `k` ahead.
spec fn placed_at(rigs: Seq<RigLod>, k: nat, n: int) -> nat
    decreases n,
{
    if n <= 0 {
        0
    } else {
        placed_at(rigs, k, n - 1) + (if competes(rigs[n - 1]) && ahead(
            rigs,
            n - 1,
            rigs.len() as int,
        ) == k {
            1nat
        } else {
            0nat
        })
    }
}

proof fn lemma_full_are_placed(rigs: Seq<RigLod>, n: int)
    requires
        0 <= n <= rigs.len(),
    ensures
        full_count(all_decided(rigs), n) <= placed_below(rigs, LOD_FULL_CAP as nat, n),
    decreases n,
{
    if n > 0 {
        lemma_full_are_placed(rigs, n - 1);
    }
}

proof fn lemma_ahead_grows(rigs: Seq<RigLod>, i: int, j: int, n: int)
    requires
        0 <= i < rigs.len(),
        0 <= j < rigs.len(),
        0 <= n <= rigs.len(),
        competes(rigs[i]),
        comes_before(rigs, i, j),
    ensures
        ahead(rigs, i, n) + (if i < n {
            1nat
        } else {
            0nat
        }) <= ahead(rigs, j, n),
    decreases n,
{
    if n > 0 {
        lemma_ahead_grows(rigs, i, j, n - 1);
    }
}

proof fn lemma_one_per_place(rigs: Seq<RigLod>, k: nat, n: int)
    requires
        0 <= n <= rigs.len(),
    ensures
        placed_at(rigs, k, n) <= 1,
        placed_at(rigs, k, n) == 0 ==> forall|i: int|
            0 <= i < n ==> !(competes(#[trigger] rigs[i]) && ahead(rigs, i, rigs.len() as int) == k),
        placed_at(rigs, k, n) == 1 ==> exists|i: int|
            0 <= i < n && competes(#[trigger] rigs[i]) && ahead(rigs, i, rigs.len() as int) == k,
    decreases n,
{
    if n > 0 {
        lemma_one_per_place(rigs, k, n - 1);
        let total = rigs.len() as int;
        if competes(rigs[n - 1]) && ahead(rigs, n - 1, total) == k {
            if placed_at(rigs, k, n - 1) == 1 {
                let i = choose|i: int|
                    0 <= i < n - 1 && competes(#[trigger] rigs[i]) && ahead(rigs, i, total) == k;
                if comes_before(rigs, i, n - 1) {
                    lemma_ahead_grows(rigs, i, n - 1, total);
                } else {
                    lemma_ahead_grows(rigs, n - 1, i, total);
                }
            }
            assert(competes(rigs[n - 1]));
        }
    }
}

proof fn lemma_split_place(rigs: Seq<RigLod>, k: nat, n: int)
    ensures
        placed_below(rigs, k + 1, n) == placed_below(rigs, k, n) + placed_at(rigs, k, n),
    decreases n,
{
    if n > 0 {
        lemma_split_place(rigs, k, n - 1);
    }
}

proof fn lemma_places_bounded(rigs: Seq<RigLod>, k: nat, n: int)
    requires
        0 <= n <= rigs.len(),
    ensures
        placed_below(rigs, k, n) <= k,
    decreases k,
{
    if k > 0 {
        let less = (k - 1) as nat;
        lemma_places_bounded(rigs, less, n);
        lemma_split_place(rigs, less, n);
        lemma_one_per_place(rigs, less, n);
    } else {
        lemma_none_below_zero(rigs, n);
    }
}

proof fn lemma_none_below_zero(rigs: Seq<RigLod>, n: int)
    ensures
        placed_below(rigs, 0, n) == 0,
    decreases n,
{
    if n > 0 {
        lemma_none_below_zero(rigs, n - 1);
    }
}

/// A figure is measured when its countdown is over, and only then: it takes the
/// distance and counts down anew. Otherwise it keeps the distance and counts on.
/// Its band is not touched.
pub proof fn law_measurements_take_turns(rig: RigLod, measured: F32)
    ensures
        rig.refresh_in == 0 ==> ticked(rig, measured).dist == measured && ticked(
            rig,
            measured,
        ).refresh_in == LOD_DIST_PERIOD && refreshing(ticked(rig, measured)),
        rig.refresh_in > 0 ==> ticked(rig, measured).dist == rig.dist && ticked(
            rig,
            measured,
        ).refresh_in == rig.refresh_in - 1,
        0 < rig.refresh_in <= LOD_DIST_PERIOD ==> !refreshing(ticked(rig, measured)),
        ticked(rig, measured).lod == rig.lod,
{
}

/// Full animation goes to the nearest: who is nearer than somebody who has a place
/// and wants one too has one as well.
pub proof fn law_places_go_to_the_nearest(rigs: Seq<RigLod>, near: int, far: int)
    requires
        0 <= near < rigs.len(),
        0 <= far < rigs.len(),
        rigs[near].dist.rank() < rigs[far].dist.rank(),
        competes(rigs[near]),
        may_be_full(rigs, far),
    ensures
        may_be_full(rigs, near),
{
    lemma_fewer_ahead(rigs, near, far, rigs.len() as int);
}

proof fn lemma_fewer_ahead(rigs: Seq<RigLod>, near: int, far: int, n: int)
    requires
        rigs[near].dist.rank() < rigs[far].dist.rank(),
    ensures
        ahead(rigs, near, n) <= ahead(rigs, far, n),
    decreases n,
{
    if n > 0 {
        lemma_fewer_ahead(rigs, near, far, n - 1);
    }
}

/// Who is ahead of a figure is nearer, or as near and listed before.
pub proof fn law_nearer_means_ahead(rigs: Seq<RigLod>, i: int, j: int)
    ensures
        rigs[i].dist.rank() < rigs[j].dist.rank() ==> comes_before(rigs, i, j) && !comes_before(
            rigs,
            j,
            i,
        ),
        rigs[i].dist.rank() == rigs[j].dist.rank() && i < j ==> comes_before(rigs, i, j),
        !comes_before(rigs, i, i),
{
}

/// With no more figures than places, every one that wants full animation has it.
pub proof fn law_few_figures_all_have_places(rigs: Seq<RigLod>, i: int)
    requires
        0 <= i < rigs.len() <= LOD_FULL_CAP,
        competes(rigs[i]),
    ensures
        may_be_full(rigs, i),
{
    lemma_ahead_at_most(rigs, i, rigs.len() as int);
}

proof fn lemma_ahead_at_most(rigs: Seq<RigLod>, i: int, n: int)
    requires
        0 <= n,
    ensures
        ahead(rigs, i, n) <= n,
        0 <= i < n ==> ahead(rigs, i, n) < n,
    decreases n,
{
    if n > 0 {
        lemma_ahead_at_most(rigs, i, n - 1);
    }
}

/// A figure wants full animation only within forty metres, and only if it was just
/// measured or has it.
pub proof fn law_only_near_figures_compete(rig: RigLod)
    ensures
        competes(rig) ==> !rig.dist.nan() && rig.dist.rank() <= LOD_FULL_BITS,
        !rig.dist.nan() && rig.dist.rank() <= LOD_FULL_BITS && rig.lod is Full ==> competes(rig),
        !rig.dist.nan() && rig.dist.rank() <= LOD_FULL_BITS && rig.refresh_in == LOD_DIST_PERIOD
            ==> competes(rig),
{
}

/// The figures told to have changed are exactly those whose band is another after
/// the frame.
pub proof fn law_changes_are_told(rigs: Seq<RigLod>, n: int, i: int)
    requires
        0 <= i < n <= rigs.len() <= usize::MAX,
    ensures
        changed(rigs, n).contains(i as usize) <==> all_decided(rigs)[i].lod != rigs[i].lod,
        all_decided(rigs)[i].dist == rigs[i].dist,
        all_decided(rigs)[i].refresh_in == rigs[i].refresh_in,
    decreases n,
{
    lemma_changed_below(rigs, n - 1);
    let prev = changed(rigs, n - 1);
    let now = changed(rigs, n);
    if i < n - 1 {
        law_changes_are_told(rigs, n - 1, i);
        if prev.contains(i as usize) {
            let k = choose|k: int| 0 <= k < prev.len() && prev[k] == i as usize;
            assert(now[k] == i as usize);
        }
        if now.contains(i as usize) {
            let k = choose|k: int| 0 <= k < now.len() && now[k] == i as usize;
            assert(k < prev.len());
            assert(prev[k] == i as usize);
        }
    } else {
        if prev.contains(i as usize) {
            let k = choose|k: int| 0 <= k < prev.len() && prev[k] == i as usize;
            assert(prev[k] < n - 1);
        }
        if decided(rigs, i) != rigs[i].lod {
            assert(now[prev.len() as int] == i as usize);
        }
    }
}

proof fn lemma_changed_below(rigs: Seq<RigLod>, n: int)
    requires
        0 <= n <= rigs.len() <= usize::MAX,
    ensures
        forall|k: int| 0 <= k < changed(rigs, n).len() ==> (#[trigger] changed(rigs, n)[k]) < n,
    decreases n,
{
    if n > 0 {
        lemma_changed_below(rigs, n - 1);
        let prev = changed(rigs, n - 1);
        let now = changed(rigs, n);
        assert forall|k: int| 0 <= k < now.len() implies (#[trigger] now[k]) < n by {
            if k < prev.len() {
                assert(now[k] == prev[k]);
            }
        }
    }
}

/// A figure that was just measured takes the band that hysteresis gives its
/// distance; the only exception is full animation without a place, which bobs.
pub proof fn law_measured_figures_take_their_band(rigs: Seq<RigLod>, i: int)
    requires
        0 <= i < rigs.len(),
        refreshing(rigs[i]),
    ensures
        ({
            let by_distance = crate::models::next_band(rigs[i].lod, rigs[i].dist);
            &&& !(by_distance is Full) ==> decided(rigs, i) == by_distance
            &&& by_distance is Full && may_be_full(rigs, i) ==> decided(rigs, i) is Full
            &&& by_distance is Full && !may_be_full(rigs, i) ==> decided(rigs, i) is Bob
        }),
{
}

} // verus!
