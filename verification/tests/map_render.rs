//! Map meshes, wall families, windows, signs and atmosphere.

use zz_client::map_render::{
    bake_face_colors, billboard_facing_rotation, build_billboard_quad, build_family_meshes,
    build_merged_boxes, build_window_mesh, classify_wall, env_lighting, env_texture_tint,
    family_base_colors, family_index, gen_ad, gen_building_tex, gen_perimeter_tex,
    ground_tex_res, hash_noise, hash_u32, occlusion_cells, occlusion_res, place_window_slits, Aabb,
    BuiltMapKey, MeshGeom, P3, Panel, Quad, TexturedBox, Units, WallFamily, WallFront,
    WallMeasures, WallTexture, COVER_TOP_BITS, MAX_WINDOWS_PER_MAP, PANEL_AXIS_MIN_BITS,
    PERIMETER_EDGE_BITS, PERIMETER_HEIGHT_BITS, ROOF_BASE_BITS, WINDOW_FACE_BITS, WINDOW_H_BITS,
    WINDOW_MIN_HEIGHT_BITS,
};
use zz_client::models::Centi3;
use zz_client::scalar::F32;
use zz_client::wire::EnvKind;

const UV_PER_M: f32 = 0.5;

const ENVS: [EnvKind; 5] = [
    EnvKind::Urban,
    EnvKind::MountainTown,
    EnvKind::DesertTown,
    EnvKind::SeaTown,
    EnvKind::RomeEur,
];

fn key(v: f32) -> F32 {
    F32::from_bits(v.to_bits())
}

fn box_at(x0: f32, y0: f32, z0: f32, x1: f32, y1: f32, z1: f32) -> Aabb<f32> {
    Aabb { x0, x1, y0, y1, z0, z1 }
}

fn gap(v: f32, half: f32) -> F32 {
    key((v.abs() - half).abs())
}

fn measures(b: &Aabb<f32>, half: f32) -> WallMeasures {
    WallMeasures {
        height: key(b.y1 - b.y0),
        gap_x0: gap(b.x0, half),
        gap_x1: gap(b.x1, half),
        gap_z0: gap(b.z0, half),
        gap_z1: gap(b.z1, half),
        y0: key(b.y0),
        y1: key(b.y1),
    }
}

fn textured(b: Aabb<f32>) -> TexturedBox<f32> {
    TexturedBox {
        aabb: b,
        u_x: (b.x1 - b.x0).abs() * UV_PER_M,
        u_y: (b.y1 - b.y0).abs() * UV_PER_M,
        u_z: (b.z1 - b.z0).abs() * UV_PER_M,
    }
}

fn units() -> Units<f32> {
    Units { zero: 0.0, one: 1.0, minus_one: -1.0 }
}

fn merged(boxes: &[Aabb<f32>]) -> MeshGeom<f32> {
    let list: Vec<TexturedBox<f32>> = boxes.iter().copied().map(textured).collect();
    build_merged_boxes(&list, &units())
}

#[test]
fn family_classifier_representative_boxes() {
    let half = 30.0;
    let peri = box_at(-5.0, 0.0, -30.0, 5.0, 6.0, -29.4);
    assert_eq!(classify_wall(&measures(&peri, half)), WallFamily::Perimeter);

    let cover = box_at(1.0, 0.0, 1.0, 2.0, 1.2, 2.0);
    assert_eq!(classify_wall(&measures(&cover, half)), WallFamily::Cover);

    let build = box_at(0.0, 0.0, 0.0, 0.4, 3.2, 4.0);
    assert_eq!(classify_wall(&measures(&build, half)), WallFamily::Building);

    let roof = box_at(0.0, 3.2, 0.0, 4.0, 3.55, 4.0);
    assert_eq!(classify_wall(&measures(&roof, half)), WallFamily::Roof);
}

#[test]
fn merged_mesh_vertex_and_index_counts() {
    let boxes = [
        box_at(0.0, 0.0, 0.0, 1.0, 2.0, 1.0),
        box_at(2.0, 0.0, 2.0, 3.0, 1.0, 4.0),
        box_at(-1.0, 0.5, -1.0, 0.0, 1.5, 0.0),
    ];
    let n = boxes.len();
    let geom = merged(&boxes);
    assert_eq!(geom.positions.len(), 6 * 4 * n);
    assert_eq!(geom.indices.len(), 6 * 6 * n);
    assert!(!geom.is_empty());
    assert!(MeshGeom::<f32>::new().is_empty());
}

#[test]
fn vertices_lie_inside_source_boxes() {
    let boxes = [
        box_at(-2.0, 0.0, -3.0, 1.0, 4.0, 2.0),
        box_at(5.0, 1.0, 5.0, 6.5, 1.8, 7.0),
    ];
    let geom = merged(&boxes);
    let eps = 0.001;
    for (vi, p) in geom.positions.iter().enumerate() {
        let face = vi / 4;
        let box_i = face / 6;
        let b = &boxes[box_i];
        assert!(
            p.x >= b.x0 - eps
                && p.x <= b.x1 + eps
                && p.y >= b.y0 - eps
                && p.y <= b.y1 + eps
                && p.z >= b.z0 - eps
                && p.z <= b.z1 + eps,
            "vertex {vi} {p:?} outside box {box_i} {b:?}"
        );
    }
}

#[test]
fn uv_scale_tracks_face_world_size() {
    let geom = merged(&[box_at(0.0, 0.0, 0.0, 2.0, 3.0, 4.0)]);
    assert!((geom.uvs[1].u - 2.0 * UV_PER_M).abs() < 1e-5);
    assert!((geom.uvs[2].v - 4.0 * UV_PER_M).abs() < 1e-5);
    let base = 8;
    assert!((geom.uvs[base + 1].u - 4.0 * UV_PER_M).abs() < 1e-5);
    assert!((geom.uvs[base + 2].v - 3.0 * UV_PER_M).abs() < 1e-5);
}

#[test]
fn faces_carry_their_normals_and_indices() {
    let geom = merged(&[box_at(0.0, 0.0, 0.0, 1.0, 1.0, 1.0)]);
    let normals: Vec<(f32, f32, f32)> =
        geom.normals.iter().step_by(4).map(|n| (n.x, n.y, n.z)).collect();
    assert_eq!(
        normals,
        vec![
            (0.0, 1.0, 0.0),
            (0.0, -1.0, 0.0),
            (1.0, 0.0, 0.0),
            (-1.0, 0.0, 0.0),
            (0.0, 0.0, 1.0),
            (0.0, 0.0, -1.0)
        ]
    );
    assert_eq!(&geom.indices[..6], &[0, 1, 2, 0, 2, 3]);
    assert_eq!(&geom.indices[30..], &[20, 21, 22, 20, 22, 23]);
}

#[test]
fn faces_look_outward() {
    let geom = merged(&[box_at(-1.0, 0.0, 2.0, 3.0, 5.0, 4.0)]);
    for tri in geom.indices.chunks(3) {
        let p = |i: usize| geom.positions[tri[i] as usize];
        let edge = |i: usize| {
            let (a, b) = (p(0), p(i));
            (b.x - a.x, b.y - a.y, b.z - a.z)
        };
        let (e, f) = (edge(1), edge(2));
        let n = geom.normals[tri[0] as usize];
        let turn = n.x * (e.1 * f.2 - e.2 * f.1)
            + n.y * (e.2 * f.0 - e.0 * f.2)
            + n.z * (e.0 * f.1 - e.1 * f.0);
        assert!(turn > 0.0, "{tri:?} runs against its normal");
    }
    let up: Vec<(f32, f32, f32)> =
        geom.positions[..4].iter().map(|p| (p.x, p.y, p.z)).collect();
    assert_eq!(up, vec![(-1.0, 5.0, 4.0), (3.0, 5.0, 4.0), (3.0, 5.0, 2.0), (-1.0, 5.0, 2.0)]);
    let right: Vec<(f32, f32, f32)> =
        geom.positions[8..12].iter().map(|p| (p.x, p.y, p.z)).collect();
    assert_eq!(right, vec![(3.0, 0.0, 4.0), (3.0, 0.0, 2.0), (3.0, 5.0, 2.0), (3.0, 5.0, 4.0)]);
}

#[test]
fn every_merged_box_has_its_own_normals_and_texture() {
    let geom = merged(&[
        box_at(0.0, 0.0, 0.0, 2.0, 3.0, 4.0),
        box_at(0.0, 0.0, 0.0, 6.0, 8.0, 10.0),
    ]);
    assert_eq!(geom.normals[..24], geom.normals[24..]);
    assert_eq!((geom.uvs[2].u, geom.uvs[2].v), (1.0, 2.0));
    assert_eq!((geom.uvs[24 + 2].u, geom.uvs[24 + 2].v), (3.0, 5.0));
    assert_eq!((geom.uvs[24 + 10].u, geom.uvs[24 + 10].v), (5.0, 4.0));
    assert_eq!((geom.uvs[24 + 18].u, geom.uvs[24 + 18].v), (3.0, 4.0));
}

#[test]
fn families_partition_the_walls() {
    let half = 30.0;
    let boxes = [
        box_at(-5.0, 0.0, -30.0, 5.0, 6.0, -29.4),
        box_at(1.0, 0.0, 1.0, 2.0, 1.2, 2.0),
        box_at(0.0, 0.0, 0.0, 0.4, 3.2, 4.0),
        box_at(0.0, 3.2, 0.0, 4.0, 3.55, 4.0),
        box_at(3.0, 0.0, 3.0, 4.0, 1.0, 4.0),
    ];
    let walls: Vec<(WallMeasures, TexturedBox<f32>)> =
        boxes.iter().map(|b| (measures(b, half), textured(*b))).collect();
    let meshes = build_family_meshes(&walls, &units());
    assert_eq!(meshes.perimeter.positions.len(), 24);
    assert_eq!(meshes.cover.positions.len(), 48);
    assert_eq!(meshes.building.positions.len(), 24);
    assert_eq!(meshes.roof.positions.len(), 24);
    assert_eq!(meshes.cover, merged(&[boxes[1], boxes[4]]));
    assert_eq!(family_index(WallFamily::Perimeter), 0);
    assert_eq!(family_index(WallFamily::Roof), 3);
}

#[test]
fn env_lighting_is_total_and_distinct() {
    let all: Vec<_> = ENVS.iter().map(|e| env_lighting(*e)).collect();
    for (i, a) in all.iter().enumerate() {
        assert!(a.ambient_brightness > 0);
        assert!(a.sun_illuminance > 0);
        assert!(a.sun_y > 0, "sun above the horizon");
        for (j, b) in all.iter().enumerate().skip(i + 1) {
            let d = a.sky.r.abs_diff(b.sky.r) as u32
                + a.sky.g.abs_diff(b.sky.g) as u32
                + a.sky.b.abs_diff(b.sky.b) as u32;
            assert!(d as f32 / 255.0 > 0.02, "skies of env {i} and {j} indistinguishable");
        }
    }
    let rome = env_lighting(EnvKind::RomeEur);
    assert_eq!(rome.sun_illuminance, 12_000);
    assert!(rome.sun_x < 0, "southwest is -x (west)");
    assert!(rome.sun_z > 0, "southwest is +z (south on this map)");
    assert_eq!(rome.ambient_brightness, 1_000);
}

/// Texels wanted across an arena: two per metre for the ground, one every two
/// metres for occlusion.
fn ground_res(half: f32) -> u32 {
    ground_tex_res((half * 2.0 * 2.0).ceil() as u32)
}

fn occ_res(half: f32) -> u32 {
    occlusion_res((half * 2.0 / 2.0).ceil() as u32)
}

#[test]
fn bake_resolutions_preserve_small_towns_and_scale_rome() {
    assert_eq!(ground_res(30.0), 1024);
    assert_eq!(occ_res(30.0), 256);
    assert_eq!(ground_res(40.0), 1024);
    assert_eq!(occ_res(40.0), 256);

    let g = ground_res(250.0);
    let o = occ_res(250.0);
    assert!(g <= 2048, "ground tex hard cap");
    assert!(o <= 2048, "occlusion hard cap");
    let diameter = 500.0;
    assert!(g as f32 / diameter >= 2.0 - 1e-3, "ground {g} too coarse for {diameter} m");
    assert!(
        diameter / o as f32 <= 2.0 + 1e-3,
        "occlusion cell {} m too large",
        diameter / o as f32
    );
}

#[test]
fn rome_family_bases_are_travertine_warm() {
    let rome = family_base_colors(EnvKind::RomeEur).building;
    let urban = family_base_colors(EnvKind::Urban).building;
    assert!(rome.x + rome.y + 1 > urban.x + urban.y);
}

#[test]
fn family_bases_are_distinct_per_env() {
    let bases: Vec<Centi3> = ENVS.iter().map(|e| family_base_colors(*e).building).collect();
    for (i, a) in bases.iter().enumerate() {
        for (j, b) in bases.iter().enumerate().skip(i + 1) {
            let d = a.x.abs_diff(b.x) + a.y.abs_diff(b.y) + a.z.abs_diff(b.z);
            assert!(d > 5, "building bases of env {i} and {j} too similar (d={d})");
        }
    }
    let (u, m, d, s) = (bases[0], bases[1], bases[2], bases[3]);
    assert!(m.x + m.y + m.z < u.x + u.y + u.z);
    assert!(d.x > s.x);
    assert!(s.z > d.z);
}

fn front(b: &Aabb<f32>, half: f32) -> WallFront {
    let height = (b.y1 - b.y0).abs();
    let cols = |w: f32| (((w - 0.4) / (0.7 + 0.55)).floor() as i32).max(1) as u32;
    let (sx, sz) = ((b.x1 - b.x0).abs(), (b.z1 - b.z0).abs());
    WallFront {
        family: classify_wall(&measures(b, half)),
        height: key(height),
        upper: key(height - 1.0),
        width_z: key(sx),
        width_x: key(sz),
        cols_z: cols(sx),
        cols_x: cols(sz),
        rows: (((height - 1.0) / (0.9 + 0.7)).floor() as i32).max(1) as u32,
    }
}

#[test]
fn window_slits_bounded_and_on_tall_buildings_only() {
    let cover = box_at(0.0, 0.0, 0.0, 2.0, 1.0, 2.0);
    assert!(place_window_slits(&vec![front(&cover, 30.0)]).is_empty());
    let tall = box_at(0.0, 0.0, 0.0, 4.0, 4.0, 0.4);
    let fronts = vec![front(&tall, 30.0)];
    let slits = place_window_slits(&fronts);
    assert_eq!(slits, place_window_slits(&fronts), "same walls, same windows");
    assert!(!slits.is_empty());
    assert!(slits.iter().all(|s| s.face < 2), "the narrow faces have no room");
    assert!(slits.iter().all(|s| s.row < s.rows && s.col < s.cols));

    let corner = P3 { x: 0.0f32, y: 0.0, z: 0.0 };
    let panel = |axis: f32| Panel {
        corners: Quad { a: corner, b: corner, c: corner, d: corner },
        normal: P3 { x: 0.0, y: 0.0, z: 1.0 },
        u_max: 0.35,
        v_max: 0.45,
        axis_len: key(axis),
    };
    let panels: Vec<Panel<f32>> = slits.iter().map(|_| panel(1.0)).collect();
    let geom = build_window_mesh(&panels, 0.0);
    assert_eq!(geom.positions.len(), slits.len() * 4);
    assert_eq!(geom.indices.len(), slits.len() * 6);
    assert!(build_window_mesh(&vec![panel(0.0)], 0.0).is_empty());

    let many: Vec<WallFront> = (0..200)
        .map(|i| {
            let x = (i % 20) as f32 * 5.0;
            let z = (i / 20) as f32 * 5.0;
            front(&box_at(x, 0.0, z, x + 3.0, 5.0, z + 0.4), 80.0)
        })
        .collect();
    assert!(place_window_slits(&many).len() <= MAX_WINDOWS_PER_MAP);
}

#[test]
fn huge_faces_stop_at_the_cap() {
    let mut fronts = vec![front(&box_at(0.0, 0.0, 0.0, 4.0, 4.0, 0.4), 30.0)];
    let first = place_window_slits(&fronts);
    for _ in 0..4 {
        let mut wide = fronts[0];
        wide.cols_z = u32::MAX;
        wide.rows = u32::MAX;
        fronts.push(wide);
    }
    let slits = place_window_slits(&fronts);
    assert_eq!(slits.len(), MAX_WINDOWS_PER_MAP);
    assert_eq!(slits[..first.len()], first[..], "walls added behind change nothing before");
    assert!(slits.iter().all(|s| s.row < s.rows && s.col < s.cols && s.face < 2));
}

#[test]
fn baked_face_colors_cover_every_vertex() {
    let boxes = [
        box_at(0.0, 0.0, 0.0, 2.0, 3.0, 2.0),
        box_at(5.0, 0.0, 5.0, 6.0, 1.0, 6.0),
    ];
    let mut geom = merged(&boxes);
    let light: Vec<f32> = (0..12).map(|f| 0.5 + f as f32 * 0.01).collect();
    bake_face_colors(&mut geom, &light, 1.0);
    assert_eq!(geom.colors.len(), geom.positions.len());
    for (i, c) in geom.colors.iter().enumerate() {
        assert_eq!((c.r, c.g, c.b), (light[i / 4], light[i / 4], light[i / 4]));
        assert_eq!(c.a, 1.0);
    }
}

#[test]
fn billboard_facing_inward() {
    // A quarter turn about y takes +z to +x.
    let facing = |wall: u8| match billboard_facing_rotation(wall) {
        0 => (0, 1),
        1 => (1, 0),
        2 => (0, -1),
        -1 => (-1, 0),
        other => panic!("{other}"),
    };
    assert_eq!(facing(0), (0, 1));
    assert_eq!(facing(1), (0, -1));
    assert_eq!(facing(2), (1, 0));
    assert_eq!(facing(3), (-1, 0));
    assert_eq!(facing(9), (0, 1));
}

#[test]
fn billboard_quads_are_single_faces() {
    let q = |x: f32, y: f32| P3 { x, y, z: 0.0 };
    let corners = Quad { a: q(-1.0, -1.0), b: q(1.0, -1.0), c: q(1.0, 1.0), d: q(-1.0, 1.0) };
    let geom = build_billboard_quad(corners, &units());
    assert_eq!(geom.positions.len(), 4);
    assert_eq!(geom.indices, vec![0, 1, 2, 0, 2, 3]);
    let uvs: Vec<(f32, f32)> = geom.uvs.iter().map(|p| (p.u, p.v)).collect();
    assert_eq!(uvs, vec![(0.0, 0.0), (1.0, 0.0), (1.0, 1.0), (0.0, 1.0)]);
}

#[test]
fn signs_are_framed_images() {
    for slot in 0..4u8 {
        let px = gen_ad(slot, 32, 16);
        assert_eq!(px.len(), 32 * 16 * 4);
        assert!(px.chunks(4).all(|c| c[3] == 255));
    }
    assert_eq!(gen_ad(1, 32, 16), gen_ad(5, 32, 16));
    assert_ne!(gen_ad(0, 32, 16), gen_ad(1, 32, 16));
}

#[test]
fn hashes_match_their_formulas() {
    let mut n = 12345u32.wrapping_mul(2654435761);
    n ^= n >> 16;
    n = n.wrapping_mul(2246822519);
    n ^= n >> 13;
    assert_eq!(hash_u32(12345), n);
    let mut m = 3u32
        .wrapping_mul(374761393)
        .wrapping_add(9u32.wrapping_mul(668265263))
        .wrapping_add(7u32.wrapping_mul(2246822519));
    m = (m ^ (m >> 13)).wrapping_mul(1274126177);
    m ^= m >> 16;
    assert_eq!(hash_noise(3, 9, 7), m & 0xffff);
}

#[test]
fn occlusion_cells_clamp_at_the_edge() {
    assert_eq!(occlusion_cells(0, 0, 4), (0, 1, 4, 5));
    assert_eq!(occlusion_cells(3, 3, 4), (15, 15, 15, 15));
}

#[test]
fn textures_follow_the_environment() {
    assert_eq!(gen_building_tex(EnvKind::Urban), WallTexture::Concrete { dark: false });
    assert_eq!(gen_building_tex(EnvKind::RomeEur), WallTexture::Concrete { dark: false });
    assert_eq!(gen_building_tex(EnvKind::MountainTown), WallTexture::Planks { bleached: false });
    assert_eq!(gen_building_tex(EnvKind::SeaTown), WallTexture::Planks { bleached: true });
    assert_eq!(gen_building_tex(EnvKind::DesertTown), WallTexture::Adobe);
    let stone = (WallTexture::Concrete { dark: true }, Centi3 { x: 92, y: 92, z: 96 });
    assert_eq!(gen_perimeter_tex(EnvKind::MountainTown), stone);
    let (_, tint) = gen_perimeter_tex(EnvKind::RomeEur);
    assert!(tint.x > 0 && env_texture_tint(EnvKind::SeaTown).z > 0);
}

#[test]
fn map_is_rebuilt_when_anything_differs() {
    let seed = "town".to_string();
    let mut key = BuiltMapKey::default();
    assert!(key.needs_rebuild(&seed, EnvKind::Urban, true, false, false));
    key.mark_built(&seed, EnvKind::Urban);
    assert!(!key.needs_rebuild(&seed, EnvKind::Urban, true, false, false));
    assert!(key.needs_rebuild(&seed, EnvKind::SeaTown, true, false, false));
    assert!(key.needs_rebuild(&"other".to_string(), EnvKind::Urban, true, false, false));
    assert!(key.needs_rebuild(&seed, EnvKind::Urban, false, false, false));
    assert!(key.needs_rebuild(&seed, EnvKind::Urban, true, true, false));
    assert!(key.needs_rebuild(&seed, EnvKind::Urban, true, false, true));
}

#[test]
fn map_constants_are_the_numbers_they_name() {
    assert_eq!(f32::from_bits(PERIMETER_HEIGHT_BITS), 5.0);
    assert_eq!(f32::from_bits(PERIMETER_EDGE_BITS), 1.5);
    assert_eq!(f32::from_bits(ROOF_BASE_BITS), 2.5);
    assert_eq!(f32::from_bits(COVER_TOP_BITS), 2.0);
    assert_eq!(f32::from_bits(WINDOW_MIN_HEIGHT_BITS), 2.5);
    assert_eq!(f32::from_bits(WINDOW_H_BITS), 0.9);
    assert_eq!(f32::from_bits(WINDOW_FACE_BITS), 0.7 + 0.5);
    assert_eq!(f32::from_bits(PANEL_AXIS_MIN_BITS), 1e-4);
}
