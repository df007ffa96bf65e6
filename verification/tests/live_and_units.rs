use density_mesh::image_settings::{
    combine_luma_alpha, extract_rgba_channel, GenerateDensityImageSettings, ImageDensitySource,
};
use density_mesh::live::{LiveDensityMesh, LiveProcessStatus};
use density_mesh::map::DensityMap;
use density_mesh::settings::{GenerateDensityMeshSettings, PointsSeparation};
use density_mesh::utils::{are_edges_connected, does_triangle_share_edge, paired_min_max};
use density_mesh::Coord;

fn live_settings() -> GenerateDensityMeshSettings {
    GenerateDensityMeshSettings {
        points_separation: PointsSeparation::Constant(500),
        visibility_threshold: 0,
        steepness_threshold: 0,
        ..Default::default()
    }
}

#[test]
fn live_idle_stays_idle() {
    let map = DensityMap::new(2, 2, 1, vec![9; 4]).unwrap();
    let mut live = LiveDensityMesh::new(map, live_settings());
    live.process_wait().unwrap();
    while live.in_progress() {
        live.process_wait().unwrap();
    }
    assert_eq!(live.process().unwrap(), LiveProcessStatus::Idle);
    assert_eq!(live.process().unwrap(), LiveProcessStatus::Idle);
}

#[test]
fn live_applies_two_disjoint_patches() {
    let map = DensityMap::new(4, 4, 1, vec![200; 16]).unwrap();
    let settings = live_settings();
    let mut live = LiveDensityMesh::new(map, settings.clone());
    live.process_wait().unwrap();
    while live.in_progress() {
        live.process_wait().unwrap();
    }
    assert!(live.mesh().is_some());

    live.change_map(0, 0, 2, 2, vec![0; 4], settings.clone())
        .unwrap();
    live.process_wait().unwrap();
    while live.in_progress() {
        live.process_wait().unwrap();
    }
    live.change_map(2, 2, 2, 2, vec![50; 4], settings).unwrap();
    live.process_wait().unwrap();
    while live.in_progress() {
        live.process_wait().unwrap();
    }

    let expected: Vec<u8> = vec![
        0, 0, 200, 200, //
        0, 0, 200, 200, //
        200, 200, 50, 50, //
        200, 200, 50, 50,
    ];
    assert_eq!(live.map.values(), &expected);

    // No surviving triangle may sit entirely strictly inside the zeroed
    // rectangle (milli-units [0, 2000) x [0, 2000)); its density there is
    // uniformly below the visibility threshold.
    let mesh = live.mesh().unwrap();
    for t in &mesh.triangles {
        let pa = mesh.points[t.a];
        let pb = mesh.points[t.b];
        let pc = mesh.points[t.c];
        let inside = |p: &Coord| p.x < 1900 && p.y < 1900 && p.x >= 0 && p.y >= 0;
        assert!(
            !(inside(&pa) && inside(&pb) && inside(&pc)),
            "triangle fully inside the erased region"
        );
    }
}

#[test]
fn live_change_rejects_wrong_buffer() {
    let map = DensityMap::new(4, 4, 1, vec![200; 16]).unwrap();
    let settings = live_settings();
    let mut live = LiveDensityMesh::new(map, settings.clone());
    assert!(live.change_map(0, 0, 2, 2, vec![0; 3], settings).is_err());
}

#[test]
fn separation_interpolates_from_steepness() {
    let sep = PointsSeparation::SteepnessMapping(1000, 9000);
    // Steepness zero gives the widest spacing, full steepness the tightest.
    assert_eq!(sep.local(0), 9000);
    assert_eq!(sep.local(3060), 1000);
    assert_eq!(sep.local(6000), 1000);
    // Halfway: 9000 + (1000 - 9000) * 1530 / 3060 == 5000.
    assert_eq!(sep.local(1530), 5000);
    assert_eq!(sep.maximum(), 9000);
    assert_eq!(PointsSeparation::Constant(700).local(2000), 700);
    assert_eq!(PointsSeparation::Constant(700).maximum(), 700);
}

#[test]
fn default_settings_match_documentation() {
    let s = GenerateDensityMeshSettings::default();
    assert_eq!(s.points_separation, PointsSeparation::Constant(10000));
    assert_eq!(s.visibility_threshold, 10);
    assert_eq!(s.steepness_threshold, 10);
    assert_eq!(s.max_iterations, 32);
    assert_eq!(s.extrude_size, None);
    assert!(!s.is_chunk);
    assert!(!s.keep_invisible_triangles);
}

#[test]
fn edge_helpers_count_shared_corners() {
    assert!(are_edges_connected(1, 2, 1, 2));
    assert!(are_edges_connected(1, 2, 2, 1));
    assert!(!are_edges_connected(1, 2, 1, 3));
    assert_eq!(does_triangle_share_edge(0, 1, 2, 3, 4), 0);
    assert_eq!(does_triangle_share_edge(0, 1, 2, 2, 4), 1);
    assert_eq!(does_triangle_share_edge(0, 1, 2, 1, 2), 2);
    assert_eq!(paired_min_max(5, 3, 10, 20), (3, 5, 20, 10));
    assert_eq!(paired_min_max(3, 5, 10, 20), (3, 5, 10, 20));
}

#[test]
fn image_channel_planes() {
    let rgba = vec![1, 2, 3, 4, 5, 6, 7, 8];
    assert_eq!(extract_rgba_channel(&rgba, 0), vec![1, 5]);
    assert_eq!(extract_rgba_channel(&rgba, 3), vec![4, 8]);
    let la = vec![255, 255, 255, 0, 100, 128];
    assert_eq!(combine_luma_alpha(&la), vec![255, 0, 50]);
    assert_eq!(ImageDensitySource::Red.rgba_offset(), Some(0));
    assert_eq!(ImageDensitySource::Alpha.rgba_offset(), Some(3));
    assert_eq!(ImageDensitySource::LumaAlpha.rgba_offset(), None);
    let image_settings = GenerateDensityImageSettings::default();
    assert_eq!(image_settings.scale, 1);
    assert_eq!(GenerateDensityImageSettings::default_scale(), 1);
}

#[test]
fn steepness_bytes_saturate() {
    let map = DensityMap::new(2, 2, 1, vec![0, 255, 255, 0]).unwrap();
    let bytes = map.steepness_bytes();
    assert_eq!(bytes.len(), 4);
    for (i, b) in bytes.iter().enumerate() {
        let expected = (map.steepness_values()[i] / 12).min(255) as u8;
        assert_eq!(*b, expected);
    }
}

#[test]
fn coordinates_behave_like_vectors() {
    let a = Coord::new(0, 0);
    let b = Coord::new(2000, 0);
    assert_eq!(b.sub(a).magnitude(), 2000);
    assert_eq!(b.sub(a).sqr_magnitude(), 4_000_000);
    assert_eq!(b.sub(a).normalized(), Coord::new(1000, 0));
    assert_eq!(b.sub(a).normalized().right(), Coord::new(0, -1000));
    assert_eq!(Coord::new(1000, 0).dot(Coord::new(-1000, 0)), -1_000_000);
    assert_eq!(a.add(b), Coord::new(2000, 0));
    assert_eq!(b.neg(), Coord::new(-2000, 0));
    assert_eq!(Coord::new(3000, 4000).magnitude(), 5000);
    assert_eq!(Coord::new(600, 800).normalized(), Coord::new(600, 800));
    assert_eq!(Coord::new(0, 0).normalized(), Coord::new(0, 0));
    // Sub-unit vectors normalize at scaled precision: the result's
    // magnitude stays within rounding of one whole unit.
    assert_eq!(Coord::new(1, 1).normalized(), Coord::new(707, 707));
    assert_eq!(Coord::new(0, 3).normalized(), Coord::new(0, 1000));
    let n = Coord::new(7, -13).normalized();
    let mag = ((n.x * n.x + n.y * n.y) as f64).sqrt();
    assert!((mag - 1000.0).abs() < 3.0, "magnitude {}", mag);
}

#[test]
fn steepness_mapped_separation_generates() {
    // A gradient field with steepness-dependent spacing still yields a
    // sound mesh.
    let bytes: Vec<u8> = (0..64u32).map(|i| (i * 4) as u8).collect();
    let map = DensityMap::new(8, 8, 1, bytes).unwrap();
    let settings = GenerateDensityMeshSettings {
        points_separation: PointsSeparation::SteepnessMapping(500, 3000),
        visibility_threshold: 0,
        steepness_threshold: 0,
        ..Default::default()
    };
    let mesh = density_mesh::generator::DensityMeshGenerator::new(vec![], map, settings)
        .process_wait()
        .unwrap();
    assert!(mesh.points.len() >= 3);
    assert!(!mesh.triangles.is_empty());
    for t in &mesh.triangles {
        assert!(t.a < mesh.points.len() && t.b < mesh.points.len() && t.c < mesh.points.len());
    }
}

#[test]
fn live_survives_extruded_initial_run() {
    let map = DensityMap::new(3, 3, 1, vec![9; 9]).unwrap();
    let settings = GenerateDensityMeshSettings {
        extrude_size: Some(1000),
        ..live_settings()
    };
    let mut live = LiveDensityMesh::new(map, settings.clone());
    live.process_wait().unwrap();
    while live.in_progress() {
        live.process_wait().unwrap();
    }
    let with_skirt = live.mesh().unwrap().points.len();
    // The skirt adds offset points beyond the nine grid cells.
    assert!(with_skirt > 9);
    // A later change re-meshes its region without a skirt and stitches.
    live.change_map(0, 0, 2, 2, vec![0; 4], settings).unwrap();
    live.process_wait().unwrap();
    while live.in_progress() {
        live.process_wait().unwrap();
    }
    assert!(live.mesh().is_some());
    assert_eq!(live.map.values()[0], 0);
}

#[test]
fn live_change_outside_mesh_starts_a_generator() {
    // A change whose box overlaps no existing triangle still re-meshes its
    // region rather than being dropped.
    let map = DensityMap::new(6, 2, 1, vec![200; 12]).unwrap();
    let settings = live_settings();
    let mut live = LiveDensityMesh::new(map, settings.clone());
    live.process_wait().unwrap();
    while live.in_progress() {
        live.process_wait().unwrap();
    }
    // Erase the right half, so its triangles disappear...
    live.change_map(3, 0, 3, 2, vec![0; 6], settings.clone()).unwrap();
    live.process_wait().unwrap();
    while live.in_progress() {
        live.process_wait().unwrap();
    }
    // ...then raise it again: the affected box overlaps no triangle now,
    // but the change must still be processed into new triangles there.
    live.change_map(3, 0, 3, 2, vec![200; 6], settings).unwrap();
    live.process_wait().unwrap();
    while live.in_progress() {
        live.process_wait().unwrap();
    }
    let mesh = live.mesh().unwrap();
    assert!(
        mesh.points.iter().any(|p| p.x >= 4000),
        "the re-raised region was not re-meshed"
    );
}
