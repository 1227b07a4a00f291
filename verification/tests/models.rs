//! Figures: tables, levels of detail and the way they are put together.

use zz_client::lod::{animate_rigs, LodMetrics, RigLod};
use zz_client::models::{
    anim_lod_for_distance, anim_lod_hysteresis, body_mat, kind_cadence, kind_color, kind_scale,
    phase_hash, silhouette_scale_table, slot_color, AnimLod, Centi3, LOD_BOB_BITS,
    LOD_BOB_EXIT_BITS, LOD_DIST_PERIOD, LOD_FULL_BITS, LOD_FULL_CAP, LOD_FULL_EXIT_BITS,
};
use zz_client::remotes::{should_growl, GrowlMemory, Growler};
use zz_client::rigs::{
    attach_humanoid, compute_rig_pose, crumple_done, hit_flash_done, impostor, motion_of,
    muzzle_flash, rifle_parts, shows_impostor, telegraphs, tracks_motion, viewmodel_on_shot, ArmPose, PartRole, Viewmodel,
    CRUMPLE_DURATION_BITS, FLASH_GONE_BITS, FLASH_LIFE_BITS, HIT_FLASH_BITS, STRIDE_SPEED_BITS,
    WALK_SPEED_BITS,
};
use zz_client::scalar::F32;

fn key(v: f32) -> F32 {
    F32::from_bits(v.to_bits())
}

fn phase_offset(id: u16) -> f32 {
    (phase_hash(id) as f32 / u32::MAX as f32) * std::f32::consts::TAU
}

#[test]
fn phase_offset_deterministic_and_varied() {
    let a = phase_offset(7);
    let b = phase_offset(7);
    assert!((a - b).abs() < 1e-6, "same id, same phase");
    let c = phase_offset(8);
    assert!((a - c).abs() > 0.05, "different ids, different phase");
    let mut phases: Vec<f32> = (0u16..32).map(phase_offset).collect();
    phases.sort_by(|x, y| x.partial_cmp(y).unwrap());
    let span = phases.last().unwrap() - phases.first().unwrap();
    assert!(
        span > std::f32::consts::PI,
        "phase offsets should span a wide range, span={span}"
    );
}

#[test]
fn kind_scale_and_color_table() {
    assert_eq!(kind_scale(0), Centi3 { x: 100, y: 100, z: 100 });
    let r = kind_scale(1);
    assert!(r.x < 100 && r.z < 100);
    let b = kind_scale(2);
    assert_eq!(b.x, 150);
    assert!(b.y > 100);

    let c0 = kind_color(0);
    let c1 = kind_color(1);
    let c2 = kind_color(2);
    assert!(
        c0.x.abs_diff(c1.x) + c0.y.abs_diff(c1.y) > 12,
        "walker vs runner colours should differ strongly"
    );
    assert!(
        c0.x.abs_diff(c2.x) + c0.y.abs_diff(c2.y) > 12,
        "walker vs brute colours should differ strongly"
    );

    assert!(kind_cadence(1) > kind_cadence(0));
    assert!(kind_cadence(0) > kind_cadence(2));

    let mut head_sum = 0u32;
    let mut arm_sum = 0u32;
    for k in 0u8..3 {
        let (h, a) = silhouette_scale_table(k);
        assert!(h > 50 && a > 50, "silhouette scales positive");
        head_sum += h as u32;
        arm_sum += a as u32;
    }
    assert!(head_sum > 300 && arm_sum > 300);
    assert!(silhouette_scale_table(2).0.abs_diff(silhouette_scale_table(0).0) > 10);
}

#[test]
fn lod_tables() {
    let full = f32::from_bits(LOD_FULL_BITS);
    let full_exit = f32::from_bits(LOD_FULL_EXIT_BITS);
    let bob = f32::from_bits(LOD_BOB_BITS);
    let bob_exit = f32::from_bits(LOD_BOB_EXIT_BITS);
    assert_eq!((full, full_exit, bob, bob_exit), (40.0, 48.0, 80.0, 92.0));

    assert_eq!(anim_lod_for_distance(key(10.0)), AnimLod::Full);
    assert_eq!(anim_lod_for_distance(key(full)), AnimLod::Full);
    assert_eq!(anim_lod_for_distance(key(full + 1.0)), AnimLod::Bob);
    assert_eq!(anim_lod_for_distance(key(bob + 1.0)), AnimLod::Static);

    assert_eq!(anim_lod_hysteresis(AnimLod::Full, key(full + 4.0)), AnimLod::Full);
    assert_eq!(anim_lod_hysteresis(AnimLod::Full, key(full_exit + 0.1)), AnimLod::Bob);
    assert_eq!(anim_lod_hysteresis(AnimLod::Bob, key(full)), AnimLod::Full);
    assert_eq!(anim_lod_hysteresis(AnimLod::Static, key(bob)), AnimLod::Bob);
    assert_eq!(anim_lod_hysteresis(AnimLod::Bob, key(bob_exit + 0.1)), AnimLod::Static);
    assert_eq!(anim_lod_hysteresis(AnimLod::Bob, key(60.0)), AnimLod::Bob);
    assert_eq!(anim_lod_hysteresis(AnimLod::Static, key(85.0)), AnimLod::Static);
}

fn bucket(secs: f64) -> u32 {
    (secs * 2.0).floor() as u32
}

#[test]
fn growl_trigger_deterministic() {
    assert_eq!(should_growl(42, bucket(10.0)), should_growl(42, bucket(10.0)));
    let a = should_growl(1, bucket(0.0));
    let b = should_growl(1, bucket(0.4)); // same half-second bucket
    assert_eq!(a, b);
    assert!(should_growl(0, 0));
}

#[test]
fn a_zombie_growls_once_per_bucket() {
    let mut memory = GrowlMemory::default();
    let near = Growler { id: 0, dist: key(16.0) };
    let far = Growler { id: 0, dist: key(16.1) };
    assert_eq!(memory.growls(0, &vec![far, near, near]), vec![1]);
    assert!(memory.growls(0, &vec![near]).is_empty());
    let again = (1u32..200).find(|b| should_growl(0, *b)).unwrap();
    assert_eq!(memory.growls(again, &vec![near]), vec![0]);
}

#[test]
fn body_materials_stay_in_their_banks() {
    assert_eq!(body_mat(true, 0), 0);
    assert_eq!(body_mat(true, 9), 2);
    assert_eq!(body_mat(false, 0), 0);
    assert_eq!(body_mat(false, 7), 2);
    assert_eq!(slot_color(1), Centi3 { x: 35, y: 55, z: 95 });
    assert_eq!(slot_color(6), slot_color(1));
}

#[test]
fn crowded_hordes_keep_few_full_rigs() {
    let n = 100usize;
    let mut rigs: Vec<RigLod> = (0..n)
        .map(|_| RigLod { lod: AnimLod::Full, dist: key(0.0), refresh_in: 0 })
        .collect();
    let measured: Vec<F32> = (0..n).map(|i| key(1.0 + i as f32 * 0.1)).collect();
    let mut metrics = LodMetrics::default();
    let changed = animate_rigs(&mut rigs, &measured, &mut metrics);
    let full = rigs.iter().filter(|r| r.lod == AnimLod::Full).count();
    assert!(full <= LOD_FULL_CAP);
    assert!(rigs[..LOD_FULL_CAP].iter().all(|r| r.lod == AnimLod::Full), "the nearest stay full");
    assert_eq!(changed.len(), n - LOD_FULL_CAP);
    assert_eq!(metrics.transitions_this_frame, 0, "losing a place to the cap is no transition");
    assert_eq!(metrics.zombie_roots as usize, n);
    assert_eq!(metrics.frame, 1);
    metrics.reset_counters();
    assert_eq!(metrics, LodMetrics::default());
}

#[test]
fn the_cap_alone_makes_no_transitions() {
    let mut rigs: Vec<RigLod> = (0..LOD_FULL_CAP + 1)
        .map(|_| RigLod { lod: AnimLod::Full, dist: key(10.0), refresh_in: 5 })
        .collect();
    let measured = vec![key(10.0); LOD_FULL_CAP + 1];
    let mut metrics = LodMetrics::default();
    assert_eq!(animate_rigs(&mut rigs, &measured, &mut metrics), vec![LOD_FULL_CAP]);
    assert_eq!(rigs[LOD_FULL_CAP].lod, AnimLod::Bob);
    assert_eq!(metrics.transitions_this_frame, 0);
    // The demoted figure stays within full range; refreshing it changes nothing.
    for _ in 0..40 {
        assert!(animate_rigs(&mut rigs, &measured, &mut metrics).is_empty());
    }
    assert_eq!(metrics.total_transitions, 0);
    assert_eq!(metrics.frame, 41);
}

#[test]
fn measured_band_changes_are_transitions() {
    let mut rigs = vec![
        RigLod { lod: AnimLod::Static, dist: key(200.0), refresh_in: 0 },
        RigLod { lod: AnimLod::Full, dist: key(10.0), refresh_in: 0 },
        RigLod { lod: AnimLod::Full, dist: key(10.0), refresh_in: 3 },
    ];
    let mut metrics = LodMetrics::default();
    let measured = vec![key(1.0), key(200.0), key(200.0)];
    assert_eq!(animate_rigs(&mut rigs, &measured, &mut metrics), vec![0, 1]);
    assert_eq!(metrics.transitions_this_frame, 2);
    assert_eq!(metrics.peak_transitions, 2);
    assert_eq!(rigs[2].lod, AnimLod::Full, "not measured this frame");
}

#[test]
fn a_distance_that_is_no_number_is_never_full() {
    let mut rigs = vec![
        RigLod { lod: AnimLod::Full, dist: key(10.0), refresh_in: 0 },
        RigLod { lod: AnimLod::Full, dist: key(10.0), refresh_in: 0 },
    ];
    let mut metrics = LodMetrics::default();
    animate_rigs(&mut rigs, &vec![key(f32::NAN), key(3.0)], &mut metrics);
    assert_ne!(rigs[0].lod, AnimLod::Full);
    assert_eq!(rigs[1].lod, AnimLod::Full);
}

#[test]
fn horde_lod_transitions_bounded() {
    let n = 150usize;
    let base: Vec<f32> = (0..n).map(|i| 15.0 + (i as f32 % 50.0) * 2.1).collect();
    let mut rigs: Vec<RigLod> = (0..n)
        .map(|i| RigLod {
            lod: AnimLod::Full,
            dist: key(0.0),
            refresh_in: (i as u16 % LOD_DIST_PERIOD as u16) as u8,
        })
        .collect();
    let mut metrics = LodMetrics::default();
    let frame = |f: u32| -> Vec<F32> {
        base.iter()
            .enumerate()
            .map(|(i, d)| key(d + (f as f32 * 0.02 + i as f32 * 0.1).cos() * 0.05))
            .collect()
    };
    for f in 0..40 {
        animate_rigs(&mut rigs, &frame(f), &mut metrics);
    }
    metrics.reset_counters();
    for f in 0..300 {
        animate_rigs(&mut rigs, &frame(100 + f), &mut metrics);
    }
    let budget = (n as f32 * 0.05).ceil() as u32;
    assert!(metrics.peak_transitions <= budget, "peak {}", metrics.peak_transitions);
    assert!(metrics.total_transitions as f32 / 300.0 <= n as f32 * 0.05);
    assert_eq!(metrics.frame, 300);
    assert_eq!(metrics.zombie_roots, n as u32);
}

#[test]
fn zombies_and_survivors_are_built_differently() {
    let z = attach_humanoid(true, 1, 23);
    assert_eq!(z.parts.len(), 5);
    assert_eq!(z.parts[1].percent, 95);
    assert_eq!(z.parts[2].role, PartRole::Jaw);
    assert!(z.parts.iter().filter(|p| p.flashes).count() == 3);
    assert!(z.hunched);
    assert!(z.is_zombie && !z.attacking);
    assert_eq!((z.kind, z.material), (1, 1));
    assert_eq!(z.lod, RigLod { lod: AnimLod::Full, dist: key(0.0), refresh_in: 3 });
    assert_eq!(z.phase, phase_hash(23));
    assert!(z.parts[..3].iter().all(|p| p.flashes));
    let s = attach_humanoid(false, 4, 0);
    assert_eq!(s.parts.len(), 2);
    assert_eq!(s.parts[1].size, Centi3 { x: 34, y: 34, z: 32 });
    assert!(!s.is_zombie && !s.attacking);
    assert_eq!((s.kind, s.material), (4, body_mat(false, 4)));
    assert_eq!(s.lod, RigLod { lod: AnimLod::Full, dist: key(0.0), refresh_in: 0 });
    assert_eq!(s.parts.iter().filter(|p| p.flashes).count(), 2);
    assert!(!s.hunched && z.left_arm.len > s.left_arm.len);
    assert_eq!(s.left_leg.joint.x, -s.right_leg.joint.x);
    assert_eq!(attach_humanoid(true, 200, 0).parts[1].percent, 135);
    let (at, size) = impostor();
    assert_eq!((at.y, size.y), (95, 175));
}

#[test]
fn state_and_detail_decide_what_shows() {
    assert!(telegraphs(1));
    assert!(!telegraphs(0) && !telegraphs(2));
    assert!(shows_impostor(AnimLod::Static));
    assert!(!shows_impostor(AnimLod::Bob) && !shows_impostor(AnimLod::Full));
    assert_eq!(motion_of(true, 1, AnimLod::Bob), (AnimLod::Bob, true));
    assert_eq!(motion_of(true, 0, AnimLod::Static), (AnimLod::Static, false));
    assert_eq!(motion_of(false, 1, AnimLod::Static), (AnimLod::Full, false));
}

#[test]
fn detail_decides_what_moves() {
    let fast = key(3.0);
    let full = compute_rig_pose(AnimLod::Full, true, false, fast);
    assert!(full.strides && full.bobs && full.write_limbs && full.full_swing);
    assert_eq!(full.arms, ArmPose::Swing);
    let strike = compute_rig_pose(AnimLod::Full, true, true, fast);
    assert_eq!(strike.arms, ArmPose::Raised);
    assert!(strike.pulses);
    assert_eq!(compute_rig_pose(AnimLod::Full, false, true, fast).arms, ArmPose::Swing);
    let bob = compute_rig_pose(AnimLod::Bob, true, true, fast);
    assert!(bob.strides && bob.bobs && !bob.write_limbs);
    assert_eq!(bob.arms, ArmPose::Still);
    let far = compute_rig_pose(AnimLod::Static, true, true, fast);
    assert!(!far.strides && !far.bobs && !far.write_limbs && far.pulses);
    let slow = compute_rig_pose(AnimLod::Full, true, false, key(0.3));
    assert!(slow.strides && !slow.bobs && !slow.full_swing);
    assert!(!compute_rig_pose(AnimLod::Full, true, false, key(0.25)).strides);
    assert!(tracks_motion(AnimLod::Bob) && !tracks_motion(AnimLod::Static));
}

#[test]
fn rifle_kicks_and_flashes() {
    let parts = rifle_parts();
    assert_eq!(parts.len(), 5);
    let flash = muzzle_flash();
    assert_eq!((flash.at.x, flash.at.y, flash.at.z), (0, 2, -72));
    let mut vm = Viewmodel::at_rest();
    assert!(!vm.flash_shows());
    viewmodel_on_shot(&mut vm);
    assert!(vm.flash_shows());
    assert_eq!(f32::from_bits(vm.recoil.bits), 1.0);
    assert_eq!(f32::from_bits(vm.flash_age.bits), 0.0);
}

#[test]
fn timers_run_out() {
    assert!(!crumple_done(key(0.54)) && crumple_done(key(0.55)));
    assert!(!hit_flash_done(key(0.08)) && hit_flash_done(key(0.09)));
    assert_eq!(f32::from_bits(CRUMPLE_DURATION_BITS), 0.55);
    assert_eq!(f32::from_bits(HIT_FLASH_BITS), 0.09);
    assert_eq!(f32::from_bits(FLASH_GONE_BITS), 99.0);
    assert_eq!(f32::from_bits(FLASH_LIFE_BITS), 0.06);
    assert_eq!(f32::from_bits(STRIDE_SPEED_BITS), 0.25);
    assert_eq!(f32::from_bits(WALK_SPEED_BITS), 0.35);
}
