//! The mountain map's dressing.

use zz_client::map_render::{make_uvs, MeshGeom, P3, Quad, Rgba, Units};
use zz_client::mountain_dressing::{
    append_cone, append_cylinder, append_pine_billboard, append_ramp_wedge, append_ridge_segment,
    append_rotated_box, append_side_ramp, classify_retaining_walls, classify_stair_runs,
    flat_texture, gen_bark_tex, gen_earth_scree_tex, gen_needle_tex, gen_stone_tex,
    hash_prop_poses, is_retaining_wall, is_stair_step, mouth_stays_bare, order_quad_outward,
    pick_in_order, pine_is_far, pine_layers, pine_site_ok, pine_spot, push_quad_auto,
    push_triangle_auto, ramp_wedge, ridge_has_snow, ring_sides, rock_corner, rock_site_ok,
    rotated_box_face, side_point, side_ramp, side_ramp_edges, snap_non_walkable, snap_offset, speck_pixel,
    stair_mouths, BoxCorners, CrossSite, FaceFit, MeasuredWall, MountainDressing, PinePlacer,
    PineSpot, PropPose, PropSite, QuadFit, RampFit, RampSite, RidgeFit, RidgeSegment, Rim, SortKey,
    Tri, BARE_MOUTH_BITS, HIGH_BAND_SHARE_BITS, PINE_MAX, PINE_MIN, PINE_SPACING_BITS,
    RETAIN_MAX_H_BITS, RETAIN_MAX_THICK_BITS, RETAIN_MIN_H_BITS, RETAIN_MIN_LEN_BITS,
    RETAIN_MIN_THICK_BITS, SLOPE_MIN_BITS, SNAP_CANDIDATES, SNOW_LINE_BITS, STAIR_FOOT_BITS,
    STAIR_MAX_H_BITS, STAIR_MAX_THICK_BITS, STAIR_MIN_H_BITS, STAIR_MIN_THICK_BITS,
    STAIR_MIN_W_BITS, TREELINE_SHARE_BITS, TRIES_PER_PINE,
};
use zz_client::scalar::{F32, F64};

fn key(v: f32) -> F32 {
    F32::from_bits(v.to_bits())
}

fn draw(v: f64) -> F64 {
    F64::from_bits(v.to_bits())
}

fn wall(x0: f32, y0: f32, z0: f32, x1: f32, y1: f32, z1: f32) -> MeasuredWall {
    let sz = (z1 - z0).abs();
    MeasuredWall {
        x0: key(x0),
        x1: key(x1),
        z0: key(z0),
        z1: key(z1),
        y1: key(y1),
        sx: key((x1 - x0).abs()),
        sy: key((y1 - y0).abs()),
        sz: key(sz),
        foot: key(y0.abs()),
        slim: key(sz * 2.5),
        mid: key((x0 + x1) * 0.5),
        reach: key(z1 + 0.8),
    }
}

#[test]
fn retaining_walls_are_long_thin_and_of_middling_height() {
    assert!(is_retaining_wall(&wall(0.0, 0.0, 0.0, 6.0, 1.8, 0.5)));
    assert!(!is_retaining_wall(&wall(0.0, 0.0, 0.0, 2.9, 1.8, 0.5)), "too short");
    assert!(!is_retaining_wall(&wall(0.0, 0.0, 0.0, 6.0, 1.8, 1.3)), "too thick");
    assert!(!is_retaining_wall(&wall(0.0, 0.0, 0.0, 6.0, 3.0, 0.5)), "too tall");
    assert!(!is_retaining_wall(&wall(0.0, 0.2, 0.0, 6.0, 2.0, 0.5)), "off the ground");
    assert!(!is_retaining_wall(&wall(0.0, 0.0, 0.0, 3.0, 1.8, 1.2)), "not slim");
    assert!(!is_retaining_wall(&wall(f32::NAN, 0.0, 0.0, 6.0, 1.8, 0.5)));
}

#[test]
fn steps_are_wide_shallow_and_low() {
    assert!(is_stair_step(&wall(0.0, 0.0, 0.0, 4.0, 0.3, 0.5)));
    assert!(!is_stair_step(&wall(0.0, 0.0, 0.0, 4.0, 0.12, 0.5)));
    assert!(!is_stair_step(&wall(0.0, 0.0, 0.0, 4.0, 1.2, 0.5)));
    assert!(!is_stair_step(&wall(0.0, 0.0, 0.0, 2.0, 0.3, 0.5)));
}

#[test]
fn retaining_walls_are_listed_by_z_then_x() {
    let walls = vec![
        wall(0.0, 0.0, 9.0, 6.0, 1.8, 9.5),
        wall(0.0, 0.0, 0.0, 1.0, 5.0, 1.0),
        wall(7.0, 0.0, -3.0, 13.0, 1.8, -2.5),
        wall(-7.0, 0.0, -3.0, -1.0, 1.8, -2.5),
        wall(-7.0, 0.0, -3.0, -1.0, 1.8, -2.5),
    ];
    assert_eq!(classify_retaining_walls(&walls), vec![3, 4, 2, 0]);
}

#[test]
fn picking_is_stable() {
    let k = |a: f32, b: f32| SortKey { major: key(a), minor: key(b) };
    let keys = vec![k(1.0, 0.0), k(0.0, 5.0), k(0.0, -5.0), k(1.0, 0.0), k(-2.0, 0.0)];
    assert_eq!(pick_in_order(&keys, &vec![true; 5]), vec![4, 2, 1, 0, 3]);
    assert_eq!(pick_in_order(&keys, &vec![true, false, true, false, false]), vec![2, 0]);
}

fn aligned(walls: &[(f32, f32)]) -> Vec<Vec<bool>> {
    walls
        .iter()
        .map(|a| {
            walls
                .iter()
                .map(|b| {
                    let mid = |w: &(f32, f32)| (w.0 + w.1) * 0.5;
                    (mid(b) - mid(a)).abs() <= 0.6
                        && (b.0 - a.0).abs() <= 0.6
                        && (b.1 - a.1).abs() <= 0.6
                })
                .collect()
        })
        .collect()
}

#[test]
fn steps_in_a_row_make_a_stair() {
    let spans = [(0.0, 4.0), (0.0, 4.0), (0.1, 4.1), (20.0, 24.0), (0.0, 4.0)];
    let walls = vec![
        wall(0.0, 0.0, 1.0, 4.0, 0.6, 1.5),
        wall(0.0, 0.0, 0.0, 4.0, 0.3, 0.5),
        wall(0.1, 0.0, 2.0, 4.1, 0.9, 2.5),
        wall(20.0, 0.0, 0.0, 24.0, 0.3, 0.5),
        wall(0.0, 0.0, 9.0, 4.0, 0.3, 9.5),
    ];
    let runs = classify_stair_runs(&walls, &aligned(&spans));
    assert_eq!(runs.len(), 2);
    assert_eq!(runs[0].x0, key(0.0));
    assert_eq!(runs[0].x1, key(4.0));
    assert_eq!(runs[0].z0, key(0.0));
    assert_eq!(runs[0].z1, key(1.5));
    assert_eq!(runs[0].y1, key(0.6));
    // The third step's middle lies a little to the side, so it is listed behind
    // the lone far step and joins that one.
    assert_eq!((runs[1].x0, runs[1].x1), (key(0.0), key(4.1)));
    assert_eq!((runs[1].z0, runs[1].z1), (key(2.0), key(9.5)));
    assert!(classify_stair_runs(&vec![walls[3]], &vec![vec![true]]).is_empty(), "one step is no stair");
}

fn p(x: f32, y: f32, z: f32) -> P3<f32> {
    P3 { x, y, z }
}

fn unit_quad() -> Quad<P3<f32>> {
    Quad { a: p(0.0, 0.0, 0.0), b: p(1.0, 0.0, 0.0), c: p(1.0, 1.0, 0.0), d: p(0.0, 1.0, 0.0) }
}

const UP: P3<f32> = P3 { x: 0.0, y: 1.0, z: 0.0 };

#[test]
fn quads_can_be_flipped() {
    let q = unit_quad();
    assert_eq!(order_quad_outward(q, true), q);
    let f = order_quad_outward(q, false);
    assert_eq!((f.a, f.b, f.c, f.d), (q.a, q.d, q.c, q.b));
    assert_eq!(order_quad_outward(f, false), q);
}

#[test]
fn faces_without_area_are_left_out() {
    let mut g: MeshGeom<f32> = MeshGeom::new();
    let uvs = make_uvs(1.0, 2.0, 0.0);
    push_quad_auto(&mut g, unit_quad(), &QuadFit { normal: None, flipped: None }, uvs);
    assert!(g.is_empty());
    push_quad_auto(&mut g, unit_quad(), &QuadFit { normal: None, flipped: Some(UP) }, uvs);
    assert_eq!(g.positions[1], unit_quad().d);
    push_quad_auto(&mut g, unit_quad(), &QuadFit { normal: Some(UP), flipped: None }, uvs);
    assert_eq!(g.positions[5], unit_quad().b);
    let t = Tri { a: p(0.0, 0.0, 0.0), b: p(1.0, 0.0, 0.0), c: p(0.0, 1.0, 0.0) };
    push_triangle_auto(&mut g, t, &None, 0.0);
    assert_eq!(g.positions.len(), 8);
    push_triangle_auto(&mut g, t, &Some(UP), 0.0);
    assert_eq!(g.positions.len(), 11);
    assert_eq!(&g.indices[12..], &[8, 9, 10]);
}

#[test]
fn slopes_have_four_faces_or_none() {
    let site = RampSite { x0: 0.0, x1: 4.0, z_high: 1.0, z_low: -2.0, y_high: 1.5, y_low: 0.0, ground: 0.0 };
    let w = ramp_wedge(&site);
    assert_eq!(w.top.a, p(0.0, 1.5, 1.0));
    assert_eq!(w.top.c, p(4.0, 0.0, -2.0));
    assert_eq!(w.west.c, p(0.0, 0.0, 1.0));
    assert_eq!(w.back.d, w.top.a);
    let fit = |height: f32| RampFit {
        width: key(4.0),
        depth: key(3.0),
        height: key(height),
        top: QuadFit { normal: Some(UP), flipped: None },
        west: Some(UP),
        east: Some(UP),
        back: QuadFit { normal: Some(UP), flipped: None },
        u_width: 2.0,
        v_depth: 1.5,
        v_height: 0.75,
    };
    let mut g: MeshGeom<f32> = MeshGeom::new();
    append_ramp_wedge(&mut g, &w, &fit(0.04), 0.0);
    assert!(g.is_empty());
    append_ramp_wedge(&mut g, &w, &fit(1.5), 0.0);
    assert_eq!(g.positions.len(), 14);
    assert_eq!(g.indices.len(), 18);
    assert!(g.indices.iter().all(|i| (*i as usize) < g.positions.len()));
}

#[test]
fn side_slopes_rise_towards_the_stair() {
    assert_eq!(side_ramp_edges(key(1.0), key(2.0), true), (key(2.0), key(1.0)));
    assert_eq!(side_ramp_edges(key(1.0), key(2.0), false), (key(1.0), key(2.0)));
    assert_eq!(side_ramp_edges(key(2.0), key(1.0), true), (key(2.0), key(1.0)));
    let q = side_ramp(2.0f32, 1.0, 0.9, 0.0, 0.0, 5.0, true);
    assert_eq!(q.a, p(2.0, 0.9, 0.0));
    assert_eq!(q.c, p(1.0, 0.0, 5.0));
    let mut g: MeshGeom<f32> = MeshGeom::new();
    let fit = QuadFit { normal: Some(UP), flipped: None };
    let uvs = make_uvs(1.0, 1.0, 0.0);
    append_side_ramp(&mut g, q, &fit, key(0.01), key(5.0), key(0.9), uvs);
    assert!(g.is_empty());
    append_side_ramp(&mut g, q, &fit, key(1.0), key(5.0), key(0.9), uvs);
    assert_eq!(g.positions.len(), 4);
}

#[test]
fn far_pines_are_crossed_panels() {
    let mut g: MeshGeom<f32> = MeshGeom::new();
    let site = CrossSite {
        x: 0.0,
        z: 0.0,
        x_lo: -0.7,
        x_hi: 0.7,
        z_lo: -0.7,
        z_hi: 0.7,
        foot: 0.0,
        top: 2.8,
    };
    let units = Units { zero: 0.0, one: 1.0, minus_one: -1.0 };
    append_pine_billboard(&mut g, &site, &units, make_uvs(0.7, 1.4, 0.0));
    assert_eq!(g.positions.len(), 16);
    let normals: Vec<(f32, f32)> = g.normals.iter().step_by(4).map(|n| (n.x, n.z)).collect();
    assert_eq!(normals, vec![(0.0, 1.0), (0.0, -1.0), (1.0, 0.0), (-1.0, 0.0)]);
    assert_eq!(g.positions[4], g.positions[1]);
    assert_eq!(g.positions[5], g.positions[0]);
}

#[test]
fn round_shapes_have_a_face_per_side() {
    let rim = Rim {
        lower: (0..4).map(|i| p(i as f32, 0.0, 0.0)).collect(),
        upper: (0..4).map(|i| p(i as f32, 1.0, 0.0)).collect(),
        normals: vec![UP; 3],
        agrees: vec![true, false, true],
    };
    let mut g: MeshGeom<f32> = MeshGeom::new();
    append_cylinder(&mut g, &rim, make_uvs(1.0, 1.0, 0.0));
    assert_eq!(g.positions.len(), 12);
    assert_eq!(g.positions[1], p(1.0, 0.0, 0.0));
    assert_eq!(g.positions[5], p(1.0, 1.0, 0.0), "the second side is flipped");
    append_cone(&mut g, &rim, p(9.0, 9.0, 9.0), 0.0);
    assert_eq!(g.positions.len(), 21);
    assert_eq!(g.positions[15], p(2.0, 0.0, 0.0), "the second side is turned");
    assert!(g.indices.iter().all(|i| (*i as usize) < g.positions.len()));
    assert_eq!(ring_sides(1), 3);
    assert_eq!(ring_sides(7), 7);
    assert_eq!((pine_layers(0), pine_layers(1), pine_layers(2)), (2, 3, 2));
}

#[test]
fn rocks_are_turned_boxes() {
    let b = BoxCorners {
        lll: p(0.0, 0.0, 0.0),
        llh: p(0.0, 0.0, 1.0),
        lhl: p(0.0, 1.0, 0.0),
        lhh: p(0.0, 1.0, 1.0),
        hll: p(1.0, 0.0, 0.0),
        hlh: p(1.0, 0.0, 1.0),
        hhl: p(1.0, 1.0, 0.0),
        hhh: p(1.0, 1.0, 1.0),
    };
    let fits = vec![FaceFit { agrees: true, normal: UP }; 6];
    let mut g: MeshGeom<f32> = MeshGeom::new();
    append_rotated_box(&mut g, &b, &fits, make_uvs(1.0, 1.0, 0.0));
    assert_eq!(g.positions.len(), 24);
    assert_eq!(g.positions[0], b.lhh);
    assert_eq!(g.positions[20], b.hll);
    assert!(g.positions[..4].iter().all(|q| q.y == 1.0));
    assert!(g.positions[8..12].iter().all(|q| q.x == 1.0));
}

/// A triangle's doubled area along a direction.
fn turn(a: P3<f32>, b: P3<f32>, c: P3<f32>, n: P3<f32>) -> f32 {
    let e = (b.x - a.x, b.y - a.y, b.z - a.z);
    let f = (c.x - a.x, c.y - a.y, c.z - a.z);
    n.x * (e.1 * f.2 - e.2 * f.1) + n.y * (e.2 * f.0 - e.0 * f.2) + n.z * (e.0 * f.1 - e.1 * f.0)
}

#[test]
fn turned_boxes_wind_along_their_normals() {
    let at = |x: f32, y: f32, z: f32| p(2.0 * x - z, 3.0 * y, x + 2.0 * z);
    let right = BoxCorners {
        lll: at(0.0, 0.0, 0.0),
        llh: at(0.0, 0.0, 1.0),
        lhl: at(0.0, 1.0, 0.0),
        lhh: at(0.0, 1.0, 1.0),
        hll: at(1.0, 0.0, 0.0),
        hlh: at(1.0, 0.0, 1.0),
        hhl: at(1.0, 1.0, 0.0),
        hhh: at(1.0, 1.0, 1.0),
    };
    // With low and high x swapped the plain winding faces inward.
    let mirrored = BoxCorners {
        lll: right.hll,
        llh: right.hlh,
        lhl: right.hhl,
        lhh: right.hhh,
        hll: right.lll,
        hlh: right.llh,
        hhl: right.lhl,
        hhh: right.lhh,
    };
    let (ex, ez) = (p(2.0, 0.0, 1.0), p(-1.0, 0.0, 2.0));
    let back = |n: P3<f32>| p(-n.x, -n.y, -n.z);
    let out = [UP, back(UP), ex, back(ex), ez, back(ez)];
    let swapped = [UP, back(UP), back(ex), ex, ez, back(ez)];
    for (b, normals, plain) in [(right, out, true), (mirrored, swapped, false)] {
        let fits: Vec<FaceFit<f32>> = (0..6)
            .map(|k| {
                let q = rotated_box_face(&b, k);
                FaceFit { agrees: turn(q.a, q.b, q.c, normals[k]) > 0.0, normal: normals[k] }
            })
            .collect();
        assert!(fits.iter().all(|f| f.agrees == plain));
        let mut g: MeshGeom<f32> = MeshGeom::new();
        append_rotated_box(&mut g, &b, &fits, make_uvs(1.0, 1.0, 0.0));
        for t in g.indices.chunks(3) {
            let v = |i: usize| g.positions[t[i] as usize];
            assert!(turn(v(0), v(1), v(2), g.normals[t[0] as usize]) > 0.0, "{t:?}");
        }
    }
}

#[test]
fn ridge_carries_snow_above_the_line() {
    assert!(ridge_has_snow(key(8.5), key(1.0)));
    assert!(ridge_has_snow(key(1.0), key(8.1)));
    assert!(!ridge_has_snow(key(8.0), key(8.0)));
    let seg = RidgeSegment {
        foot0: p(0.0, -2.0, 0.0),
        foot1: p(1.0, -2.0, 0.0),
        snow0: p(0.0, 8.0, 0.0),
        snow1: p(1.0, 8.0, 0.0),
        peak0: p(0.0, 12.0, 0.0),
        peak1: p(1.0, 11.0, 0.0),
    };
    let fit = FaceFit { agrees: true, normal: UP };
    let rock = Rgba { r: 0.42, g: 0.40, b: 0.38, a: 1.0 };
    let snow = Rgba { r: 0.92, g: 0.94, b: 0.96, a: 1.0 };
    let fits = RidgeFit { body: fit, rock: fit, cap: fit, rock_color: rock, snow_color: snow };
    let mut g: MeshGeom<f32> = MeshGeom::new();
    append_ridge_segment(&mut g, &seg, &fits, false, 0.0);
    assert_eq!((g.positions.len(), g.colors.len()), (4, 4));
    assert_eq!(g.positions[2], seg.peak1);
    append_ridge_segment(&mut g, &seg, &fits, true, 0.0);
    assert_eq!((g.positions.len(), g.colors.len()), (12, 12));
    assert_eq!(g.colors[4], rock);
    assert_eq!(g.colors[8], snow);
    assert_eq!(g.positions[8], seg.snow0);
}

fn site(x: f32, z: f32, edge: f32, walkable: bool) -> PropSite {
    PropSite { x: key(x), z: key(z), edge: key(edge), walkable }
}

#[test]
fn props_keep_off_walkable_floor() {
    assert!(!pine_site_ok(&site(3.0, 4.0, 29.9, true)));
    assert!(pine_site_ok(&site(3.0, 4.0, 29.9, false)));
    assert!(pine_site_ok(&site(31.0, 4.0, 29.9, true)));
    assert!(pine_site_ok(&site(3.0, -31.0, 29.9, true)));
    assert!(!rock_site_ok(&site(3.0, 4.0, 29.95, true)));
    assert!(rock_site_ok(&site(29.95, 4.0, 29.95, true)));
    assert!(!pine_site_ok(&site(29.95, 4.0, 29.95, true)));
    let pose = |x: f32, z: f32| PropPose { x: key(x), z: key(z), yaw: key(0.0), scale: key(1.0) };
    assert!(pine_is_far(&pose(-30.5, 0.0), key(30.0)));
    assert!(!pine_is_far(&pose(30.0, -30.0), key(30.0)));
}

#[test]
fn pines_are_placed_within_their_budget() {
    let mut placer = PinePlacer::new(2);
    assert_eq!(placer.target, PINE_MIN + 2);
    let free = site(31.0, 0.0, 29.9, true);
    let taken = site(1.0, 1.0, 29.9, true);
    assert!(placer.wants_more());
    let mut draws = 0.0f32;
    let mut attempt = |placer: &mut PinePlacer, site: &PropSite, gaps: Vec<F32>| {
        placer.try_pine(site, &gaps, || {
            draws += 1.0;
            (key(draws), key(-draws))
        })
    };
    assert!(!attempt(&mut placer, &taken, vec![]));
    assert!(attempt(&mut placer, &free, vec![]));
    let pose = PropPose { x: key(31.0), z: key(0.0), yaw: key(1.0), scale: key(-1.0) };
    assert_eq!(placer.poses, vec![pose]);
    assert!(!attempt(&mut placer, &free, vec![key(4.8)]), "too close to a pine");
    assert_eq!(placer.poses, vec![pose]);
    assert!(attempt(&mut placer, &free, vec![key(4.85)]));
    let next = PropPose { yaw: key(2.0), scale: key(-2.0), ..pose };
    assert_eq!(placer.poses, vec![pose, next], "drawn only for pines that fit");
    assert_eq!(placer.tries, 4);
    while placer.wants_more() {
        attempt(&mut placer, &taken, vec![key(100.0), key(100.0)]);
    }
    assert_eq!(placer.tries, placer.target * TRIES_PER_PINE);
    assert_eq!(placer.poses.len(), 2);
    assert_eq!(PINE_MAX, 72);
}

#[test]
fn draws_pick_where_pines_go() {
    assert_eq!(pine_spot(draw(0.0)), PineSpot::Treeline);
    assert_eq!(pine_spot(draw(0.55)), PineSpot::HighBand);
    assert_eq!(pine_spot(draw(0.84)), PineSpot::HighBand);
    assert_eq!(pine_spot(draw(0.85)), PineSpot::EdgeRing);
    assert!(mouth_stays_bare(draw(0.39)) && !mouth_stays_bare(draw(0.4)));
    assert_eq!(side_point(0, 1, -9, 9), (1, -9));
    assert_eq!(side_point(1, 1, -9, 9), (1, 9));
    assert_eq!(side_point(2, 1, -9, 9), (-9, 1));
    assert_eq!(side_point(3, 1, -9, 9), (9, 1));
}

#[test]
fn rocks_snap_to_the_nearest_free_candidate() {
    assert_eq!(snap_offset(0), (0, 0));
    assert_eq!(snap_offset(1), (-1, 0));
    assert_eq!(snap_offset(8), (1, -1));
    assert_eq!(snap_offset(SNAP_CANDIDATES - 1), (4, -4));
    let mut ok = vec![false; SNAP_CANDIDATES];
    assert_eq!(snap_non_walkable(&ok), None);
    ok[9] = true;
    ok[20] = true;
    assert_eq!(snap_non_walkable(&ok), Some(9));
    let corners: Vec<(i32, i32)> = (0..4).map(rock_corner).collect();
    assert_eq!(corners, vec![(-1, -1), (1, -1), (-1, 1), (1, 1)]);
    let m = stair_mouths("l", "r", "f", "h");
    assert_eq!((m.a, m.b, m.c, m.d), (("l", "f"), ("r", "f"), ("l", "h"), ("r", "h")));
}

#[test]
fn prop_fingerprints_are_fnv() {
    let poses = vec![
        PropPose { x: key(1.0), z: key(-2.0), yaw: key(0.5), scale: key(0.9) },
        PropPose { x: key(3.0), z: key(4.0), yaw: key(1.5), scale: key(1.1) },
    ];
    let mut h = 0xcbf2_9ce4_8422_2325u64;
    for q in &poses {
        for bits in [q.x.bits, q.z.bits, q.yaw.bits, q.scale.bits] {
            h ^= bits as u64;
            h = h.wrapping_mul(0x1000_0000_01b3);
        }
    }
    assert_eq!(hash_prop_poses(&poses), h);
    assert_eq!(hash_prop_poses(&vec![]), 0xcbf2_9ce4_8422_2325);
    let mut d: MountainDressing<f32> = MountainDressing::new(3, 1);
    d.pine_poses = poses;
    assert_eq!((d.pine_count(), d.rock_cluster_count(), d.retaining_count), (2, 0, 3));
}

#[test]
fn textures_are_flat_with_specks() {
    let earth = gen_earth_scree_tex();
    assert_eq!((earth.base.r, earth.count, earth.salt), (0x6b, 900, 11));
    assert_eq!(gen_needle_tex().fleck.g, 0x2c);
    assert_eq!(gen_bark_tex().count, 500);
    assert_eq!(gen_stone_tex().salt, 44);
    let px = flat_texture(3, earth.base);
    assert_eq!(px.len(), 36);
    assert_eq!(&px[32..], &[0x6b, 0x52, 0x3a, 255]);
    assert_eq!(speck_pixel(2, 2, 1, 1, 3), 0);
    assert_eq!(speck_pixel(1, 2, 1, 0, 3), 4 * (2 * 3 + 2));
}

#[test]
fn dressing_constants_are_the_numbers_they_name() {
    assert_eq!(f32::from_bits(RETAIN_MIN_LEN_BITS), 3.0);
    assert_eq!(f32::from_bits(RETAIN_MIN_THICK_BITS), 0.15);
    assert_eq!(f32::from_bits(RETAIN_MAX_THICK_BITS), 1.2);
    assert_eq!(f32::from_bits(RETAIN_MIN_H_BITS), 1.35);
    assert_eq!(f32::from_bits(RETAIN_MAX_H_BITS), 2.6);
    assert_eq!(f32::from_bits(STAIR_MIN_W_BITS), 3.0);
    assert_eq!(f32::from_bits(STAIR_MIN_THICK_BITS), 0.2);
    assert_eq!(f32::from_bits(STAIR_MAX_THICK_BITS), 1.2);
    assert_eq!(f32::from_bits(STAIR_MIN_H_BITS), 0.12);
    assert_eq!(f32::from_bits(STAIR_MAX_H_BITS), 1.1);
    assert_eq!(f32::from_bits(STAIR_FOOT_BITS), 0.1);
    assert_eq!(f32::from_bits(SLOPE_MIN_BITS), 0.05);
    assert_eq!(f32::from_bits(SNOW_LINE_BITS), 8.0);
    assert_eq!(f32::from_bits(PINE_SPACING_BITS), 2.2f32 * 2.2);
    assert_eq!(f64::from_bits(TREELINE_SHARE_BITS), 0.55);
    assert_eq!(f64::from_bits(HIGH_BAND_SHARE_BITS), 0.85);
    assert_eq!(f64::from_bits(BARE_MOUTH_BITS), 0.4);
}
