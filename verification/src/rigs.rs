//! The boxes that make up a figure and the rifle, and what of a figure moves.
//!
//! Lengths are hundredths of a metre.

use vstd::prelude::*;
use crate::lod::RigLod;
use crate::models::{
    body_mat, phase_hash, silhouette_scale_table, AnimLod, Centi3, LOD_DIST_PERIOD,
};
use crate::scalar::F32;

verus! {

/// A point relative to a figure's feet or to the rifle, in hundredths.
#[derive(Clone, Copy, Debug, PartialEq, Eq, Structural)]
pub struct Offset3 {
    pub x: i16,
    pub y: i16,
    pub z: i16,
}

/// What a box stands for.
#[derive(Clone, Copy, Debug, PartialEq, Eq, Structural)]
pub enum PartRole {
    Torso,
    Head,
    Jaw,
    LeftEye,
    RightEye,
}

/// A box of a figure: its middle, its size before `percent` is applied, and
/// whether it is one of those that flash white on a hit.
#[derive(Clone, Copy, Debug, PartialEq, Eq, Structural)]
pub struct Part {
    pub role: PartRole,
    pub at: Offset3,
    pub size: Centi3,
    pub percent: u16,
    pub flashes: bool,
}

/// A limb that hangs from a joint.
#[derive(Clone, Copy, Debug, PartialEq, Eq, Structural)]
pub struct Limb {
    pub joint: Offset3,
    pub width: u16,
    pub len: u16,
}

/// How a figure is put together, and how it starts.
#[derive(Debug, PartialEq, Eq)]
pub struct Humanoid {
    pub parts: Vec<Part>,
    pub left_leg: Limb,
    pub right_leg: Limb,
    pub left_arm: Limb,
    pub right_arm: Limb,
    /// Zombies lean forward for good.
    pub hunched: bool,
    /// Place of the body's material among the zombies' or the survivors'.
    pub material: usize,
    pub is_zombie: bool,
    /// The zombie's kind, or the survivor's slot.
    pub kind: u8,
    pub attacking: bool,
    pub lod: RigLod,
    /// Where the walk cycle starts, as a fraction of `u32::MAX`.
    pub phase: u32,
}

/// The single box that stands for a far figure: its middle and its size.
pub open spec fn impostor_box() -> (Offset3, Centi3) {
    (Offset3 { x: 0, y: 95, z: 0 }, Centi3 { x: 55, y: 175, z: 40 })
}

/// The single box that stands for a far figure: its middle and its size.
pub fn impostor() -> (r: (Offset3, Centi3))
    ensures
        r == impostor_box(),
{
    (Offset3 { x: 0, y: 95, z: 0 }, Centi3 { x: 55, y: 175, z: 40 })
}

/// The torso, the same for all.
pub open spec fn torso() -> Part {
    Part {
        role: PartRole::Torso,
        at: Offset3 { x: 0, y: 114, z: 0 },
        size: Centi3 { x: 42, y: 62, z: 26 },
        percent: 100,
        flashes: true,
    }
}

/// The head: a survivor's, or a zombie's larger one scaled by its kind.
pub open spec fn head(is_zombie: bool, percent: u16) -> Part {
    if is_zombie {
        Part {
            role: PartRole::Head,
            at: Offset3 { x: 0, y: 158, z: 0 },
            size: Centi3 { x: 42, y: 40, z: 40 },
            percent,
            flashes: true,
        }
    } else {
        Part {
            role: PartRole::Head,
            at: Offset3 { x: 0, y: 162, z: 0 },
            size: Centi3 { x: 34, y: 34, z: 32 },
            percent: 100,
            flashes: true,
        }
    }
}

/// A zombie's jaw.
pub open spec fn jaw() -> Part {
    Part {
        role: PartRole::Jaw,
        at: Offset3 { x: 0, y: 136, z: (-4) as i16 },
        size: Centi3 { x: 36, y: 14, z: 28 },
        percent: 100,
        flashes: true,
    }
}

/// A zombie's eye; it keeps glowing through a hit.
pub open spec fn eye(role: PartRole, x: i16) -> Part {
    Part {
        role,
        at: Offset3 { x, y: 164, z: (-22) as i16 },
        size: Centi3 { x: 9, y: 9, z: 9 },
        percent: 100,
        flashes: false,
    }
}

/// Head bulk of a zombie kind, in hundredths.
pub open spec fn head_percent(kind: u8) -> u16 {
    if kind == 1 {
        95
    } else if kind >= 2 {
        135
    } else {
        115
    }
}

/// The boxes of a figure, in the order they are made.
pub open spec fn figure_parts(is_zombie: bool, kind: u8) -> Seq<Part> {
    if is_zombie {
        seq![
            torso(),
            head(true, head_percent(kind)),
            jaw(),
            eye(PartRole::LeftEye, (-10) as i16),
            eye(PartRole::RightEye, 10),
        ]
    } else {
        seq![torso(), head(false, 100)]
    }
}

/// A leg on the side given by the sign of `x`.
pub open spec fn leg(x: i16) -> Limb {
    Limb { joint: Offset3 { x, y: 86, z: 0 }, width: 17, len: 84 }
}

/// An arm on the side given by the sign of `x`; a zombie's hangs longer.
pub open spec fn arm(x: i16, is_zombie: bool) -> Limb {
    if is_zombie {
        Limb { joint: Offset3 { x, y: 142, z: 0 }, width: 15, len: 78 }
    } else {
        Limb { joint: Offset3 { x, y: 142, z: 0 }, width: 14, len: 62 }
    }
}

fn make_eye(role: PartRole, x: i16) -> (r: Part)
    ensures
        r == eye(role, x),
{
    Part {
        role,
        at: Offset3 { x, y: 164, z: -22 },
        size: Centi3 { x: 9, y: 9, z: 9 },
        percent: 100,
        flashes: false,
    }
}

fn make_arm(x: i16, is_zombie: bool) -> (r: Limb)
    ensures
        r == arm(x, is_zombie),
{
    if is_zombie {
        Limb { joint: Offset3 { x, y: 142, z: 0 }, width: 15, len: 78 }
    } else {
        Limb { joint: Offset3 { x, y: 142, z: 0 }, width: 14, len: 62 }
    }
}

/// Puts a figure together. It starts in full detail and at peace; the walk cycle
/// and the first distance measurement are staggered by id so that a wave of
/// figures neither walks in step nor measures in the same frame.
pub fn attach_humanoid(is_zombie: bool, kind_or_slot: u8, id_for_phase: u16) -> (r: Humanoid)
    ensures
        r.parts@ == figure_parts(is_zombie, kind_or_slot),
        r.left_leg == leg((-12) as i16),
        r.right_leg == leg(12),
        r.left_arm == arm((-27) as i16, is_zombie),
        r.right_arm == arm(27, is_zombie),
        r.hunched == is_zombie,
        r.material == crate::models::body_material(is_zombie, kind_or_slot),
        r.is_zombie == is_zombie,
        r.kind == kind_or_slot,
        !r.attacking,
        r.lod.lod == AnimLod::Full,
        r.lod.dist == (F32 { bits: 0 }),
        r.lod.refresh_in == id_for_phase as int % LOD_DIST_PERIOD as int,
        r.phase == crate::models::phase_numerator(id_for_phase),
{
    let kind: u8 = if kind_or_slot > 2 {
        2
    } else {
        kind_or_slot
    };
    let (bulk, _arm) = silhouette_scale_table(kind);
    let mut parts: Vec<Part> = Vec::new();
    parts.push(
        Part {
            role: PartRole::Torso,
            at: Offset3 { x: 0, y: 114, z: 0 },
            size: Centi3 { x: 42, y: 62, z: 26 },
            percent: 100,
            flashes: true,
        },
    );
    if is_zombie {
        parts.push(
            Part {
                role: PartRole::Head,
                at: Offset3 { x: 0, y: 158, z: 0 },
                size: Centi3 { x: 42, y: 40, z: 40 },
                percent: bulk,
                flashes: true,
            },
        );
        parts.push(
            Part {
                role: PartRole::Jaw,
                at: Offset3 { x: 0, y: 136, z: -4 },
                size: Centi3 { x: 36, y: 14, z: 28 },
                percent: 100,
                flashes: true,
            },
        );
        parts.push(make_eye(PartRole::LeftEye, -10));
        parts.push(make_eye(PartRole::RightEye, 10));
    } else {
        parts.push(
            Part {
                role: PartRole::Head,
                at: Offset3 { x: 0, y: 162, z: 0 },
                size: Centi3 { x: 34, y: 34, z: 32 },
                percent: 100,
                flashes: true,
            },
        );
    }
    assert(parts@ =~= figure_parts(is_zombie, kind_or_slot));
    Humanoid {
        parts,
        left_leg: Limb { joint: Offset3 { x: -12, y: 86, z: 0 }, width: 17, len: 84 },
        right_leg: Limb { joint: Offset3 { x: 12, y: 86, z: 0 }, width: 17, len: 84 },
        left_arm: make_arm(-27, is_zombie),
        right_arm: make_arm(27, is_zombie),
        hunched: is_zombie,
        material: body_mat(is_zombie, kind_or_slot),
        is_zombie,
        kind: kind_or_slot,
        attacking: false,
        lod: RigLod {
            lod: AnimLod::Full,
            dist: F32::from_bits(0),
            refresh_in: (id_for_phase % (LOD_DIST_PERIOD as u16)) as u8,
        },
        phase: phase_hash(id_for_phase),
    }
}

/// A zombie can be told from a survivor: it has a jaw and eyes, a bigger head
/// even where its kind is lean, and longer arms.
pub proof fn law_zombies_stand_out(kind: u8, slot: u8)
    ensures
        figure_parts(true, kind).len() == 5,
        figure_parts(false, slot).len() == 2,
        ({
            let z = figure_parts(true, kind)[1];
            let s = figure_parts(false, slot)[1];
            z.size.x * z.percent > s.size.x * s.percent && z.size.y * z.percent > s.size.y
                * s.percent && z.size.z * z.percent > s.size.z * s.percent
        }),
        arm(27, true).len > arm(27, false).len,
{
}

/// A hit flashes the body and not the eyes: three boxes of a zombie, two of a
/// survivor, and these come first.
pub proof fn law_hits_flash_the_body(is_zombie: bool, kind: u8, i: int)
    requires
        0 <= i < figure_parts(is_zombie, kind).len(),
    ensures
        ({
            let part = figure_parts(is_zombie, kind)[i];
            &&& part.flashes <==> i < (if is_zombie {
                3int
            } else {
                2int
            })
            &&& part.flashes <==> part.role != PartRole::LeftEye && part.role
                != PartRole::RightEye
        }),
{
}

// ---- motion -------------------------------------------------------------------

/// Whether a zombie in this state shows that it is about to strike.
pub fn telegraphs(state: u8) -> (r: bool)
    ensures
        r == (state == 1),
{
    state == 1
}

/// Whether the single box stands for a figure at this level of detail.
pub fn shows_impostor(lod: AnimLod) -> (r: bool)
    ensures
        r == (lod == AnimLod::Static),
{
    match lod {
        AnimLod::Static => true,
        _ => false,
    }
}

/// The level of detail a figure is animated at, and whether it is attacking: a
/// zombie has the level it was given and strikes by its state; a survivor is
/// always shown in full and never strikes.
pub fn motion_of(is_zombie: bool, state: u8, lod: AnimLod) -> (r: (AnimLod, bool))
    ensures
        r == (if is_zombie {
            (lod, state == 1)
        } else {
            (AnimLod::Full, false)
        }),
{
    if is_zombie {
        (lod, telegraphs(state))
    } else {
        (AnimLod::Full, false)
    }
}

/// What the arms do.
#[derive(Clone, Copy, Debug, PartialEq, Eq, Structural)]
pub enum ArmPose {
    /// Hanging.
    Still,
    /// Swinging against the legs.
    Swing,
    /// Both raised to strike.
    Raised,
}

/// Which parts of a figure move in a frame.
#[derive(Clone, Copy, Debug, PartialEq, Eq, Structural)]
pub struct PosePlan {
    /// The walk cycle advances.
    pub strides: bool,
    /// The body bobs.
    pub bobs: bool,
    /// The limbs are written.
    pub write_limbs: bool,
    /// The walk cycle is at full swing.
    pub full_swing: bool,
    pub arms: ArmPose,
    /// The root pulses as the strike is telegraphed.
    pub pulses: bool,
}

/// Bit pattern of 0.25: slower figures do not stride.
pub const STRIDE_SPEED_BITS: u32 = 0x3e80_0000;

/// Bit pattern of 0.35: faster figures bob and swing in full.
pub const WALK_SPEED_BITS: u32 = 0x3eb3_3333;

/// Survivors' walk-cycle rate, in hundredths.
pub const SURVIVOR_CADENCE: u16 = 110;

/// Whether a figure's speed is followed at its level of detail.
pub fn tracks_motion(lod: AnimLod) -> (r: bool)
    ensures
        r == (lod != AnimLod::Static),
{
    match lod {
        AnimLod::Static => false,
        _ => true,
    }
}

/// Which parts move, by level of detail and speed.
pub open spec fn pose_of(lod: AnimLod, is_zombie: bool, attacking: bool, speed: F32) -> PosePlan {
    let moving = lod != AnimLod::Static;
    let walking = F32 { bits: WALK_SPEED_BITS }.below(speed);
    PosePlan {
        strides: moving && F32 { bits: STRIDE_SPEED_BITS }.below(speed),
        bobs: moving && walking,
        write_limbs: lod == AnimLod::Full,
        full_swing: walking,
        arms: if lod != AnimLod::Full {
            ArmPose::Still
        } else if attacking && is_zombie {
            ArmPose::Raised
        } else {
            ArmPose::Swing
        },
        pulses: is_zombie && attacking,
    }
}

/// Decides which parts of a figure move in a frame.
pub fn compute_rig_pose(lod: AnimLod, is_zombie: bool, attacking: bool, speed: F32) -> (r: PosePlan)
    ensures
        r == pose_of(lod, is_zombie, attacking, speed),
{
    let moving = tracks_motion(lod);
    let walking = F32::from_bits(WALK_SPEED_BITS).lt(speed);
    let full = match lod {
        AnimLod::Full => true,
        _ => false,
    };
    PosePlan {
        strides: moving && F32::from_bits(STRIDE_SPEED_BITS).lt(speed),
        bobs: moving && walking,
        write_limbs: full,
        full_swing: walking,
        arms: if !full {
            ArmPose::Still
        } else if attacking && is_zombie {
            ArmPose::Raised
        } else {
            ArmPose::Swing
        },
        pulses: is_zombie && attacking,
    }
}

/// A far figure does not move, and only a near one moves its limbs.
pub proof fn law_detail_bounds_motion(lod: AnimLod, is_zombie: bool, attacking: bool, speed: F32)
    ensures
        ({
            let p = pose_of(lod, is_zombie, attacking, speed);
            &&& lod == AnimLod::Static ==> !p.strides && !p.bobs && !p.write_limbs
            &&& p.write_limbs <==> lod == AnimLod::Full
            &&& lod != AnimLod::Full ==> p.arms == ArmPose::Still
            &&& lod == AnimLod::Full ==> (p.arms == ArmPose::Raised <==> is_zombie && attacking)
        }),
{
}

/// A figure at middle distance keeps the pace of a near one, with limbs at rest:
/// the walk cycle, the bobbing and the telegraphed strike are the same, so that
/// nothing jumps as it comes nearer.
pub proof fn law_middle_detail_keeps_the_pace(is_zombie: bool, attacking: bool, speed: F32)
    ensures
        ({
            let near = pose_of(AnimLod::Full, is_zombie, attacking, speed);
            pose_of(AnimLod::Bob, is_zombie, attacking, speed) == (PosePlan {
                write_limbs: false,
                arms: ArmPose::Still,
                ..near
            })
        }),
{
}

/// Bit pattern of 0.55: how long a fallen zombie stays, in seconds.
pub const CRUMPLE_DURATION_BITS: u32 = 0x3f0c_cccd;

/// Whether a fallen zombie's time is up.
pub fn crumple_done(age: F32) -> (r: bool)
    ensures
        r == (F32 { bits: CRUMPLE_DURATION_BITS }).at_most(age),
{
    F32::from_bits(CRUMPLE_DURATION_BITS).le(age)
}

/// Bit pattern of 0.09: how long a hit flashes, in seconds.
pub const HIT_FLASH_BITS: u32 = 0x3db8_51ec;

/// Whether a hit's flash is over.
pub fn hit_flash_done(age: F32) -> (r: bool)
    ensures
        r == (F32 { bits: HIT_FLASH_BITS }).at_most(age),
{
    F32::from_bits(HIT_FLASH_BITS).le(age)
}

// ---- rifle --------------------------------------------------------------------

/// A box of the rifle: its middle and its size.
#[derive(Clone, Copy, Debug, PartialEq, Eq, Structural)]
pub struct RifleBox {
    pub at: Offset3,
    pub size: Centi3,
}

/// The muzzle, where the flash sits and tracers start.
pub open spec fn muzzle_point() -> Offset3 {
    Offset3 { x: 0, y: 2, z: (-72) as i16 }
}

/// The boxes of the rifle: receiver, barrel, magazine, stock and front sight.
pub open spec fn rifle_boxes() -> Seq<RifleBox> {
    seq![
        RifleBox {
            at: Offset3 { x: 0, y: 0, z: (-12) as i16 },
            size: Centi3 { x: 7, y: 11, z: 42 },
        },
        RifleBox {
            at: Offset3 { x: 0, y: 2, z: (-48) as i16 },
            size: Centi3 { x: 4, y: 4, z: 38 },
        },
        RifleBox {
            at: Offset3 { x: 0, y: (-10) as i16, z: (-8) as i16 },
            size: Centi3 { x: 5, y: 14, z: 8 },
        },
        RifleBox {
            at: Offset3 { x: 0, y: (-2) as i16, z: 18 },
            size: Centi3 { x: 6, y: 10, z: 18 },
        },
        RifleBox {
            at: Offset3 { x: 0, y: 7, z: (-55) as i16 },
            size: Centi3 { x: 2, y: 5, z: 2 },
        },
    ]
}

/// The boxes of the rifle.
pub fn rifle_parts() -> (r: Vec<RifleBox>)
    ensures
        r@ == rifle_boxes(),
{
    let mut v: Vec<RifleBox> = Vec::new();
    v.push(
        RifleBox { at: Offset3 { x: 0, y: 0, z: -12 }, size: Centi3 { x: 7, y: 11, z: 42 } },
    );
    v.push(RifleBox { at: Offset3 { x: 0, y: 2, z: -48 }, size: Centi3 { x: 4, y: 4, z: 38 } });
    v.push(
        RifleBox { at: Offset3 { x: 0, y: -10, z: -8 }, size: Centi3 { x: 5, y: 14, z: 8 } },
    );
    v.push(
        RifleBox { at: Offset3 { x: 0, y: -2, z: 18 }, size: Centi3 { x: 6, y: 10, z: 18 } },
    );
    v.push(RifleBox { at: Offset3 { x: 0, y: 7, z: -55 }, size: Centi3 { x: 2, y: 5, z: 2 } });
    assert(v@ =~= rifle_boxes());
    v
}

/// The muzzle flash: where it sits and how big it is.
pub fn muzzle_flash() -> (r: RifleBox)
    ensures
        r == (RifleBox { at: muzzle_point(), size: Centi3 { x: 12, y: 12, z: 4 } }),
{
    RifleBox { at: Offset3 { x: 0, y: 2, z: -72 }, size: Centi3 { x: 12, y: 12, z: 4 } }
}

/// The muzzle lies on the barrel's line, past its tip.
pub proof fn law_muzzle_is_past_the_barrel(i: int)
    requires
        0 <= i < rifle_boxes().len(),
    ensures
        muzzle_point().x == rifle_boxes()[1].at.x,
        muzzle_point().y == rifle_boxes()[1].at.y,
        2 * muzzle_point().z < 2 * rifle_boxes()[i].at.z - rifle_boxes()[i].size.z,
{
}

/// Recoil and muzzle flash of the own rifle, as bit patterns: how much recoil is
/// left and how old the flash is.
#[derive(Clone, Copy, Debug, PartialEq, Eq, Structural)]
pub struct Viewmodel {
    pub recoil: F32,
    pub flash_age: F32,
}

/// Bit pattern of 99.0: the age of a flash long gone.
pub const FLASH_GONE_BITS: u32 = 0x42c6_0000;

/// Bit pattern of 0.06: how long a flash shows, in seconds.
pub const FLASH_LIFE_BITS: u32 = 0x3d75_c28f;

/// Bit pattern of 1.0: full recoil.
pub const FULL_RECOIL_BITS: u32 = 0x3f80_0000;

impl Viewmodel {
    /// At rest, without a flash.
    pub fn at_rest() -> (r: Viewmodel)
        ensures
            r.recoil.bits == 0,
            r.flash_age.bits == FLASH_GONE_BITS,
            !r.flashing(),
    {
        Viewmodel { recoil: F32 { bits: 0 }, flash_age: F32 { bits: FLASH_GONE_BITS } }
    }

    /// The flash shows.
    pub open spec fn flashing(self) -> bool {
        self.flash_age.below(F32 { bits: FLASH_LIFE_BITS })
    }

    pub fn flash_shows(&self) -> (r: bool)
        ensures
            r == self.flashing(),
    {
        self.flash_age.lt(F32::from_bits(FLASH_LIFE_BITS))
    }
}

/// A shot: full recoil and a fresh flash.
pub fn viewmodel_on_shot(vm: &mut Viewmodel)
    ensures
        final(vm).recoil.bits == FULL_RECOIL_BITS,
        final(vm).flash_age.bits == 0,
        final(vm).flashing(),
{
    vm.recoil = F32 { bits: FULL_RECOIL_BITS };
    vm.flash_age = F32 { bits: 0 };
}

// ---- what figures promise -------------------------------------------------------

/// What moves follows what happens: above the striding speed a figure within
/// sight strides, above the walking speed it also bobs and swings in full, and a
/// striking zombie pulses at any distance.
pub proof fn law_motion_follows_the_speed(
    lod: AnimLod,
    is_zombie: bool,
    attacking: bool,
    speed: F32,
    pace: u32,
)
    requires
        pace <= 0x7f80_0000,
        speed.bits == pace,
    ensures
        ({
            let p = pose_of(lod, is_zombie, attacking, speed);
            &&& p.strides <==> lod != AnimLod::Static && pace > STRIDE_SPEED_BITS
            &&& p.bobs <==> lod != AnimLod::Static && pace > WALK_SPEED_BITS
            &&& p.full_swing <==> pace > WALK_SPEED_BITS
            &&& p.bobs ==> p.strides && p.full_swing
            &&& p.pulses <==> is_zombie && attacking
            &&& p.arms == ArmPose::Raised ==> p.pulses
            &&& p.write_limbs && !p.pulses ==> p.arms == ArmPose::Swing
        }),
{
}

/// A survivor's motion is that of a peaceful zombie.
pub proof fn law_survivors_never_strike(lod: AnimLod, attacking: bool, speed: F32)
    ensures
        pose_of(lod, false, attacking, speed) == pose_of(lod, true, false, speed),
{
}

/// A figure is built upright and even: all its boxes but the eyes stand in the
/// middle, the eyes mirror each other on the face, the head is above the torso,
/// and the jaw between them.
pub proof fn law_figures_are_even(is_zombie: bool, kind: u8)
    ensures
        ({
            let parts = figure_parts(is_zombie, kind);
            let body = parts[0];
            let top = parts[1];
            &&& body.role == PartRole::Torso && top.role == PartRole::Head
            &&& body.at.x == 0 && body.at.z == 0 && top.at.x == 0 && top.at.z == 0
            &&& body.percent == 100
            &&& 2 * top.at.y - top.size.y > 2 * body.at.y
            &&& is_zombie ==> ({
                let chin = parts[2];
                let left = parts[3];
                let right = parts[4];
                &&& chin.role == PartRole::Jaw && left.role == PartRole::LeftEye && right.role
                    == PartRole::RightEye
                &&& chin.at.x == 0 && body.at.y < chin.at.y < top.at.y && chin.at.z < 0
                &&& left.at.x == -right.at.x && left.at.x < 0
                &&& left.at.y == right.at.y && top.at.y < left.at.y && 2 * left.at.y < 2
                    * top.at.y + top.size.y
                &&& left.at.z == right.at.z && 2 * left.at.z < -top.size.z
                &&& left.size == right.size && left.percent == right.percent
            })
        }),
{
}

/// Limbs come in pairs that mirror each other; legs all but reach the ground, and
/// arms hang from above the legs' joints.
pub proof fn law_limbs_mirror_each_other(x: i16, is_zombie: bool)
    requires
        x > 0,
    ensures
        ({
            let other = (-x) as i16;
            &&& leg(other) == (Limb {
                joint: Offset3 { x: other, ..leg(x).joint },
                ..leg(x)
            })
            &&& arm(other, is_zombie) == (Limb {
                joint: Offset3 { x: other, ..arm(x, is_zombie).joint },
                ..arm(x, is_zombie)
            })
            &&& leg(x).joint.x == x && leg(other).joint.x == other
            &&& arm(x, is_zombie).joint.x == x && arm(other, is_zombie).joint.x == other
            &&& 0 <= leg(x).joint.y - leg(x).len <= 2
            &&& arm(x, is_zombie).joint.y > leg(x).joint.y
            &&& arm(x, is_zombie).width < leg(x).width
            &&& arm(x, is_zombie).len < leg(x).len
        }),
{
}

/// A zombie's head follows its kind: the lean kind has the smallest, the heavy
/// kinds the biggest, and all from the heavy kind on the same.
pub proof fn law_heads_follow_the_kind(kind: u8)
    ensures
        head_percent(1) < head_percent(0) < head_percent(2),
        kind >= 2 ==> head_percent(kind) == head_percent(2),
        figure_parts(true, kind)[1].percent == head_percent(kind),
        figure_parts(false, kind) == figure_parts(false, 0),
{
}

/// The far figure's box stands where the figure stood: in its middle, as tall as
/// head and legs together, and on the ground to within a hand.
pub proof fn law_far_figures_keep_their_height(is_zombie: bool, kind: u8)
    ensures
        ({
            let (at, size) = impostor_box();
            let top = figure_parts(is_zombie, kind)[1];
            let body = figure_parts(is_zombie, kind)[0];
            &&& at.x == 0 && at.z == 0
            &&& 0 <= 2 * at.y - size.y <= 20
            &&& 2 * at.y + size.y > 2 * top.at.y
            &&& size.x > body.size.x && size.z > body.size.z
        }),
{
}

/// The rifle lies on its middle line: the barrel before the receiver and touching
/// it, the sight on the barrel, the magazine below, and the stock behind.
pub proof fn law_rifles_are_put_together_right(i: int)
    requires
        0 <= i < rifle_boxes().len(),
    ensures
        ({
            let boxes = rifle_boxes();
            let receiver = boxes[0];
            let barrel = boxes[1];
            let magazine = boxes[2];
            let stock = boxes[3];
            let sight = boxes[4];
            &&& boxes.len() == 5
            &&& boxes[i].at.x == 0
            &&& barrel.at.z < receiver.at.z < stock.at.z
            &&& 2 * barrel.at.z + barrel.size.z >= 2 * receiver.at.z - receiver.size.z
            &&& 2 * stock.at.z - stock.size.z <= 2 * receiver.at.z + receiver.size.z
            &&& magazine.at.y < receiver.at.y && 2 * magazine.at.y + magazine.size.y >= 2
                * receiver.at.y - receiver.size.y
            &&& sight.at.y > barrel.at.y && 2 * sight.at.y - sight.size.y <= 2 * barrel.at.y
                + barrel.size.y + 1
            &&& 2 * barrel.at.z - barrel.size.z < 2 * sight.at.z < 2 * barrel.at.z
                + barrel.size.z
        }),
{
}

/// A flash shows while it is young, and never again once it has gone.
pub proof fn law_flashes_are_short(vm: Viewmodel, later: Viewmodel)
    requires
        vm.flash_age.rank() <= later.flash_age.rank(),
        !vm.flash_age.nan(),
        !later.flash_age.nan(),
    ensures
        later.flashing() ==> vm.flashing(),
        vm.flash_age.rank() < FLASH_LIFE_BITS <==> vm.flashing(),
{
}

} // verus!
