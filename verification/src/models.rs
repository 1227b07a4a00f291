//! Figures: level-of-detail bands, per-kind tables and identity hashes.
//!
//! Tables are kept in hundredths, so that they are exact.

use vstd::prelude::*;
use crate::scalar::F32;

verus! {

/// Bit pattern of 40.0: closer than this, in metres, limbs start to move.
pub const LOD_FULL_BITS: u32 = 0x4220_0000;

/// Bit pattern of 48.0: farther than this, limbs stop.
pub const LOD_FULL_EXIT_BITS: u32 = 0x4240_0000;

/// Bit pattern of 80.0: closer than this, a frozen figure starts to bob.
pub const LOD_BOB_BITS: u32 = 0x42a0_0000;

/// Bit pattern of 92.0: farther than this, a bobbing figure freezes.
pub const LOD_BOB_EXIT_BITS: u32 = 0x42b8_0000;

/// Most zombies with full limb animation.
pub const LOD_FULL_CAP: usize = 40;

/// Frames between two distance measurements of one figure.
pub const LOD_DIST_PERIOD: u8 = 10;

/// How much of a figure is animated.
#[derive(Clone, Copy, Debug, PartialEq, Eq, Structural)]
pub enum AnimLod {
    /// Full limb walk cycle.
    Full,
    /// Vertical bob only.
    Bob,
    /// Frozen; a stand-in is drawn.
    Static,
}

/// The distance is at most the given number of metres.
pub open spec fn within(dist: F32, limit_bits: u32) -> bool {
    dist.at_most(F32 { bits: limit_bits })
}

/// The distance is more than the given number of metres.
pub open spec fn beyond(dist: F32, limit_bits: u32) -> bool {
    (F32 { bits: limit_bits }).below(dist)
}

/// The band of a distance, with no history.
pub open spec fn band(dist: F32) -> AnimLod {
    if within(dist, LOD_FULL_BITS) {
        AnimLod::Full
    } else if within(dist, LOD_BOB_BITS) {
        AnimLod::Bob
    } else {
        AnimLod::Static
    }
}

/// The band of a distance, given the band before: leaving a band takes a larger
/// distance than entering it, and a refresh moves by one band at most.
pub open spec fn next_band(prev: AnimLod, dist: F32) -> AnimLod {
    match prev {
        AnimLod::Full => if beyond(dist, LOD_FULL_EXIT_BITS) {
            AnimLod::Bob
        } else {
            AnimLod::Full
        },
        AnimLod::Bob => if within(dist, LOD_FULL_BITS) {
            AnimLod::Full
        } else if beyond(dist, LOD_BOB_EXIT_BITS) {
            AnimLod::Static
        } else {
            AnimLod::Bob
        },
        AnimLod::Static => if within(dist, LOD_BOB_BITS) {
            AnimLod::Bob
        } else {
            AnimLod::Static
        },
    }
}

/// Band of a distance at first sight.
pub fn anim_lod_for_distance(dist: F32) -> (r: AnimLod)
    ensures
        r == band(dist),
{
    if dist.le(F32::from_bits(LOD_FULL_BITS)) {
        AnimLod::Full
    } else if dist.le(F32::from_bits(LOD_BOB_BITS)) {
        AnimLod::Bob
    } else {
        AnimLod::Static
    }
}

/// Band of a distance with hysteresis.
pub fn anim_lod_hysteresis(prev: AnimLod, dist: F32) -> (r: AnimLod)
    ensures
        r == next_band(prev, dist),
{
    match prev {
        AnimLod::Full => {
            if F32::from_bits(LOD_FULL_EXIT_BITS).lt(dist) {
                AnimLod::Bob
            } else {
                AnimLod::Full
            }
        },
        AnimLod::Bob => {
            if dist.le(F32::from_bits(LOD_FULL_BITS)) {
                AnimLod::Full
            } else if F32::from_bits(LOD_BOB_EXIT_BITS).lt(dist) {
                AnimLod::Static
            } else {
                AnimLod::Bob
            }
        },
        AnimLod::Static => {
            if dist.le(F32::from_bits(LOD_BOB_BITS)) {
                AnimLod::Bob
            } else {
                AnimLod::Static
            }
        },
    }
}

/// At a constant distance the band settles after two refreshes and then stays:
/// a figure near a threshold does not flap.
pub proof fn law_band_settles(prev: AnimLod, dist: F32)
    ensures
        ({
            let settled = next_band(next_band(prev, dist), dist);
            next_band(settled, dist) == settled
        }),
{
}

/// Between the threshold where a band is entered and the one where it is left,
/// the band stays as it was.
pub proof fn law_band_holds_in_the_gap(dist: F32)
    ensures
        !within(dist, LOD_FULL_BITS) && !beyond(dist, LOD_FULL_EXIT_BITS) && !dist.nan()
            ==> next_band(AnimLod::Full, dist) == AnimLod::Full && next_band(AnimLod::Bob, dist)
            == AnimLod::Bob,
        !within(dist, LOD_BOB_BITS) && !beyond(dist, LOD_BOB_EXIT_BITS) && !dist.nan()
            ==> next_band(AnimLod::Bob, dist) == AnimLod::Bob && next_band(AnimLod::Static, dist)
            == AnimLod::Static,
{
}

/// Outside the gaps two refreshes lead from any band to the band of the
/// distance.
pub proof fn law_band_converges_outside_the_gaps(prev: AnimLod, dist: F32)
    requires
        !dist.nan(),
        within(dist, LOD_FULL_BITS) || beyond(dist, LOD_FULL_EXIT_BITS),
        within(dist, LOD_BOB_BITS) || beyond(dist, LOD_BOB_EXIT_BITS),
    ensures
        next_band(next_band(prev, dist), dist) == band(dist),
{
}

/// Numerator of a figure's walk-cycle offset, over 2^32 - 1.
pub open spec fn phase_numerator(id: u16) -> int {
    (id * 0x9E37_79B9 + 0x85EB_CA6B) % 0x1_0000_0000
}

/// A walk-cycle offset from an id, as a fraction of `u32::MAX`: the same id
/// always gives the same offset.
pub fn phase_hash(id: u16) -> (r: u32)
    ensures
        r == phase_numerator(id),
{
    let h: u32 = (id as u32).wrapping_mul(0x9E37_79B9).wrapping_add(0x85EB_CA6B);
    assert(h as int == phase_numerator(id)) by {
        vstd::arithmetic::div_mod::lemma_add_mod_noop(
            id * 0x9E37_79B9,
            0x85EB_CA6B,
            0x1_0000_0000,
        );
    }
    h
}

/// Different ids have different offsets: no two figures walk in lockstep.
pub proof fn law_phases_are_distinct(a: u16, b: u16)
    requires
        phase_numerator(a) == phase_numerator(b),
    ensures
        a == b,
{
    let x: u32 = a as u32;
    let y: u32 = b as u32;
    assert((x * 0x9E37_79B9u32 + 0x85EB_CA6Bu32) % 0x1_0000_0000 == (y * 0x9E37_79B9u32
        + 0x85EB_CA6Bu32) % 0x1_0000_0000 ==> x == y || x > 0xffff || y > 0xffff) by (bit_vector);
}

/// Three values in hundredths.
#[derive(Clone, Copy, Debug, PartialEq, Eq, Structural)]
pub struct Centi3 {
    pub x: u16,
    pub y: u16,
    pub z: u16,
}

/// Root scale of a zombie kind: runners are lean, brutes bulky.
pub open spec fn scale_of(kind: u8) -> Centi3 {
    if kind == 1 {
        Centi3 { x: 72, y: 95, z: 72 }
    } else if kind == 2 {
        Centi3 { x: 150, y: 135, z: 150 }
    } else {
        Centi3 { x: 100, y: 100, z: 100 }
    }
}

/// Body colour of a zombie kind, as red, green and blue.
pub open spec fn color_of(kind: u8) -> Centi3 {
    if kind == 1 {
        Centi3 { x: 72, y: 78, z: 18 }
    } else if kind == 2 {
        Centi3 { x: 14, y: 22, z: 12 }
    } else {
        Centi3 { x: 22, y: 55, z: 20 }
    }
}

pub fn kind_scale(kind: u8) -> (r: Centi3)
    ensures
        r == scale_of(kind),
{
    match kind {
        1 => Centi3 { x: 72, y: 95, z: 72 },
        2 => Centi3 { x: 150, y: 135, z: 150 },
        _ => Centi3 { x: 100, y: 100, z: 100 },
    }
}

pub fn kind_color(kind: u8) -> (r: Centi3)
    ensures
        r == color_of(kind),
{
    match kind {
        1 => Centi3 { x: 72, y: 78, z: 18 },
        2 => Centi3 { x: 14, y: 22, z: 12 },
        _ => Centi3 { x: 22, y: 55, z: 20 },
    }
}

/// Head bulk and arm length factors of a zombie kind, in hundredths.
pub fn silhouette_scale_table(kind: u8) -> (r: (u16, u16))
    ensures
        r == (if kind == 1 {
            (95u16, 115u16)
        } else if kind == 2 {
            (135u16, 120u16)
        } else {
            (115u16, 125u16)
        }),
{
    match kind {
        1 => (95, 115),
        2 => (135, 120),
        _ => (115, 125),
    }
}

/// Walk-cycle rate of a zombie kind, in hundredths: runners fast, brutes slow.
pub fn kind_cadence(kind: u8) -> (r: u16)
    ensures
        r == (if kind == 1 {
            155u16
        } else if kind == 2 {
            65u16
        } else {
            100u16
        }),
{
    match kind {
        1 => 155,
        2 => 65,
        _ => 100,
    }
}

/// The three kinds differ in scale and in colour, so that they can be told
/// apart; unknown kinds look like walkers.
pub proof fn law_kinds_look_different(kind: u8)
    ensures
        scale_of(0) != scale_of(1) && scale_of(1) != scale_of(2) && scale_of(0) != scale_of(2),
        color_of(0) != color_of(1) && color_of(1) != color_of(2) && color_of(0) != color_of(2),
        kind > 2 ==> scale_of(kind) == scale_of(0) && color_of(kind) == color_of(0),
{
}

/// Number of survivor colours.
pub const SLOT_COLORS: u8 = 5;

/// Survivor colour of a slot; the palette repeats.
pub open spec fn slot_palette(slot: u8) -> Centi3 {
    let i = slot % SLOT_COLORS;
    if i == 0 {
        Centi3 { x: 95, y: 35, z: 35 }
    } else if i == 1 {
        Centi3 { x: 35, y: 55, z: 95 }
    } else if i == 2 {
        Centi3 { x: 95, y: 85, z: 30 }
    } else if i == 3 {
        Centi3 { x: 65, y: 40, z: 90 }
    } else {
        Centi3 { x: 35, y: 90, z: 75 }
    }
}

pub fn slot_color(slot: u8) -> (r: Centi3)
    ensures
        r == slot_palette(slot),
{
    match slot % SLOT_COLORS {
        0 => Centi3 { x: 95, y: 35, z: 35 },
        1 => Centi3 { x: 35, y: 55, z: 95 },
        2 => Centi3 { x: 95, y: 85, z: 30 },
        3 => Centi3 { x: 65, y: 40, z: 90 },
        _ => Centi3 { x: 35, y: 90, z: 75 },
    }
}

/// Survivors in the first five slots have five different colours.
pub proof fn law_slot_colors_are_distinct(a: u8, b: u8)
    requires
        a < SLOT_COLORS,
        b < SLOT_COLORS,
        a != b,
    ensures
        slot_palette(a) != slot_palette(b),
{
}

/// Place of a figure's material: a zombie's by its kind, a survivor's by its slot,
/// which repeat.
pub open spec fn body_material(is_zombie: bool, kind_or_slot: u8) -> int {
    if is_zombie {
        if kind_or_slot > 2 {
            2
        } else {
            kind_or_slot as int
        }
    } else {
        kind_or_slot as int % SLOT_COLORS as int
    }
}

/// Which of the shared body materials a figure uses: one of the three zombie
/// materials by kind, or one of the survivor materials by slot.
pub fn body_mat(is_zombie: bool, kind_or_slot: u8) -> (r: usize)
    ensures
        r == body_material(is_zombie, kind_or_slot),
        is_zombie ==> r < 3,
        !is_zombie ==> r < SLOT_COLORS,
{
    if is_zombie {
        if kind_or_slot > 2 {
            2
        } else {
            kind_or_slot as usize
        }
    } else {
        (kind_or_slot % SLOT_COLORS) as usize
    }
}

/// At first sight a figure's band goes by its distance alone: limbs move up to
/// forty metres, it bobs up to eighty, and is frozen beyond.
pub proof fn law_bands_go_by_distance(dist: F32)
    requires
        !dist.nan(),
    ensures
        band(dist) is Full <==> dist.rank() <= LOD_FULL_BITS,
        band(dist) is Bob <==> LOD_FULL_BITS < dist.rank() <= LOD_BOB_BITS,
        band(dist) is Static <==> LOD_BOB_BITS < dist.rank(),
{
}

/// How much of a figure moves, as a number.
pub open spec fn detail(lod: AnimLod) -> int {
    match lod {
        AnimLod::Full => 2,
        AnimLod::Bob => 1,
        AnimLod::Static => 0,
    }
}

/// A nearer figure is never less detailed than a farther one with the same past,
/// and one refresh moves by one band at most.
pub proof fn law_nearer_figures_have_more_detail(prev: AnimLod, near: F32, far: F32)
    requires
        !near.nan(),
        !far.nan(),
        near.rank() <= far.rank(),
    ensures
        detail(band(far)) <= detail(band(near)),
        detail(next_band(prev, far)) <= detail(next_band(prev, near)),
        -1 <= detail(next_band(prev, far)) - detail(prev) <= 1,
{
}

/// A band is left only beyond its own exit and entered only within its own limit:
/// limbs stop past forty-eight metres and start within forty, a figure freezes
/// past ninety-two and thaws within eighty.
pub proof fn law_bands_have_their_own_limits(dist: F32)
    requires
        !dist.nan(),
    ensures
        next_band(AnimLod::Full, dist) is Full <==> dist.rank() <= LOD_FULL_EXIT_BITS,
        next_band(AnimLod::Bob, dist) is Full <==> dist.rank() <= LOD_FULL_BITS,
        next_band(AnimLod::Bob, dist) is Static <==> dist.rank() > LOD_BOB_EXIT_BITS,
        next_band(AnimLod::Static, dist) is Bob <==> dist.rank() <= LOD_BOB_BITS,
        !(next_band(AnimLod::Full, dist) is Static),
        !(next_band(AnimLod::Static, dist) is Full),
        LOD_FULL_BITS < LOD_FULL_EXIT_BITS < LOD_BOB_BITS < LOD_BOB_EXIT_BITS,
{
}

/// Runners are leaner and shorter than walkers, and brutes bulkier and taller.
pub proof fn law_kinds_have_their_build()
    ensures
        scale_of(1).x < scale_of(0).x < scale_of(2).x,
        scale_of(1).y < scale_of(0).y < scale_of(2).y,
        scale_of(1).z < scale_of(0).z < scale_of(2).z,
        scale_of(0) == (Centi3 { x: 100, y: 100, z: 100 }),
        color_of(2).x + color_of(2).y + color_of(2).z < color_of(0).x + color_of(0).y
            + color_of(0).z,
        color_of(0).x + color_of(0).y + color_of(0).z < color_of(1).x + color_of(1).y
            + color_of(1).z,
        color_of(0).y > color_of(0).x && color_of(0).y > color_of(0).z,
{
}

/// Slots share colours and materials only where they are the palette's length
/// apart; zombies have one material per kind that can be drawn.
pub proof fn law_materials_tell_figures_apart(a: u8, b: u8)
    ensures
        body_material(false, a) == body_material(false, b) <==> (a - b) % 5 == 0,
        a <= 2 && b <= 2 ==> (body_material(true, a) == body_material(true, b) <==> a == b),
        a <= 2 ==> body_material(true, a) == a,
        a > 2 ==> body_material(true, a) == 2,
        a < 5 ==> body_material(false, a) == a,
        a <= 250 ==> slot_palette((a + 5) as u8) == slot_palette(a),
{
}

} // verus!
