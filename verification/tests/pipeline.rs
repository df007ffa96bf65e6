use density_mesh::generator::DensityMeshGenerator;
use density_mesh::map::DensityMap;
use density_mesh::map::DensityMapError;
use density_mesh::mesh::GenerateDensityMeshError;
use density_mesh::settings::{GenerateDensityMeshSettings, PointsSeparation};
use density_mesh::Coord;

fn small_settings() -> GenerateDensityMeshSettings {
    GenerateDensityMeshSettings {
        points_separation: PointsSeparation::Constant(500),
        visibility_threshold: 0,
        steepness_threshold: 0,
        ..Default::default()
    }
}

/// A mesh is structurally sound: indices in range and no orphan points.
fn assert_mesh_sound(mesh: &density_mesh::mesh::DensityMesh) {
    for t in &mesh.triangles {
        assert!(t.a < mesh.points.len());
        assert!(t.b < mesh.points.len());
        assert!(t.c < mesh.points.len());
    }
    for i in 0..mesh.points.len() {
        assert!(
            mesh.triangles
                .iter()
                .any(|t| t.a == i || t.b == i || t.c == i),
            "point {} is an orphan",
            i
        );
    }
}

#[test]
fn create_rejects_wrong_length() {
    assert!(DensityMap::new(2, 2, 1, vec![0, 1, 2, 3]).is_ok());
    match DensityMap::new(1, 2, 1, vec![0, 1, 2, 3]) {
        Err(DensityMapError::WrongDataLength(provided, expected)) => {
            assert_eq!(provided, 4);
            assert_eq!(expected, 2);
        }
        _ => panic!("expected a wrong-data-length error"),
    }
}

#[test]
fn create_fills_both_buffers() {
    let map = DensityMap::new(3, 2, 1, vec![9; 6]).unwrap();
    assert_eq!(map.values().len(), 6);
    assert_eq!(map.steepness_values().len(), 6);
}

#[test]
fn steepness_matches_reference_values() {
    // For bytes [2, 2, 4, 4] on a 2x2 grid the steepness numerators over
    // 3060 are 36, 36, 50, 50 (0.01176..., 0.01633... as fractions).
    let map = DensityMap::new(2, 2, 1, vec![2, 2, 4, 4]).unwrap();
    assert_eq!(map.values(), &vec![2u8, 2, 4, 4]);
    assert_eq!(map.steepness_values(), &vec![36u16, 36, 50, 50]);
    let cells = map.value_steepness_iter();
    assert_eq!(
        cells,
        vec![(0, 0, 2, 36), (1, 0, 2, 36), (0, 1, 4, 50), (1, 1, 4, 50)]
    );
}

#[test]
fn value_at_point_truncates_towards_zero() {
    let map = DensityMap::new(2, 2, 2, vec![10, 20, 30, 40]).unwrap();
    // Scaled coordinates divide by the scale, rounding towards zero, so a
    // slightly negative coordinate still lands in the first cell.
    assert_eq!(map.value_at_point(0, 0), 10);
    assert_eq!(map.value_at_point(3, 0), 20);
    assert_eq!(map.value_at_point(-1, 0), 10);
    assert_eq!(map.value_at_point(-2, 0), 0);
    assert_eq!(map.value_at_point(0, 2), 30);
    assert_eq!(map.value_at_point(4, 0), 0);
}

#[test]
fn crop_copies_the_window() {
    let map = DensityMap::new(3, 3, 1, vec![1, 2, 3, 4, 5, 6, 7, 8, 9]).unwrap();
    let cropped = map.crop(1, 1, 2, 2);
    assert_eq!(cropped.unscaled_width(), 2);
    assert_eq!(cropped.unscaled_height(), 2);
    assert_eq!(cropped.values(), &vec![5u8, 6, 8, 9]);
    // Steepness is copied, not recomputed.
    assert_eq!(cropped.steepness_values()[0], map.steepness_values()[4]);
    // Clamped against the grid.
    let clipped = map.crop(2, 2, 5, 5);
    assert_eq!(clipped.unscaled_width(), 1);
    assert_eq!(clipped.values(), &vec![9u8]);
}

#[test]
fn change_patches_rectangle_and_steepness() {
    let mut map = DensityMap::new(3, 3, 1, vec![0; 9]).unwrap();
    map.change(1, 1, 2, 2, vec![9, 9, 9, 9]).unwrap();
    assert_eq!(map.values(), &vec![0u8, 0, 0, 0, 9, 9, 0, 9, 9]);
    // The steepness buffer must equal a from-scratch computation.
    let fresh = DensityMap::new(3, 3, 1, vec![0, 0, 0, 0, 9, 9, 0, 9, 9]).unwrap();
    assert_eq!(map.steepness_values(), fresh.steepness_values());
    // A full-rectangle change replaces the whole field.
    map.change(0, 0, 3, 3, vec![5; 9]).unwrap();
    assert_eq!(map.values(), &vec![5u8; 9]);
    // Wrong buffer size is rejected.
    match map.change(0, 0, 2, 2, vec![1, 2, 3]) {
        Err(DensityMapError::WrongDataLength(provided, expected)) => {
            assert_eq!(provided, 3);
            assert_eq!(expected, 4);
        }
        _ => panic!("expected a wrong-data-length error"),
    }
}

#[test]
fn golden_two_by_two_mesh() {
    let map = DensityMap::new(2, 2, 1, vec![1, 2, 3, 1]).unwrap();
    let generator = DensityMeshGenerator::new(vec![], map, small_settings());
    let mesh = generator.process_wait().unwrap();
    assert_eq!(mesh.points.len(), 4);
    assert_eq!(mesh.triangles.len(), 2);
    assert_mesh_sound(&mesh);
    // The four placed points cover the unit square, in milli-units.
    let mut coords: Vec<(i64, i64)> = mesh.points.iter().map(|p| (p.x, p.y)).collect();
    coords.sort();
    assert_eq!(coords, vec![(0, 0), (0, 1000), (1000, 0), (1000, 1000)]);
}

#[test]
fn finding_points_is_monotonic() {
    let map = DensityMap::new(4, 4, 1, vec![7; 16]).unwrap();
    let mut generator = DensityMeshGenerator::new(vec![], map, small_settings());
    let mut last_points = 0usize;
    let mut last_remaining = usize::MAX;
    for _ in 0..64 {
        let (points_now, remaining_now) = match &generator {
            DensityMeshGenerator::FindingPoints {
                remaining, points, ..
            } => (points.len(), remaining.len()),
            _ => break,
        };
        assert!(points_now >= last_points, "accepted points shrank");
        assert!(remaining_now <= last_remaining, "candidates grew");
        last_points = points_now;
        last_remaining = remaining_now;
        generator = generator.process().unwrap();
    }
}

#[test]
fn progress_reports_consumed_candidates() {
    let map = DensityMap::new(2, 2, 1, vec![1, 2, 3, 1]).unwrap();
    let generator = DensityMeshGenerator::new(vec![], map, small_settings());
    let (current, limit, permille) = generator.progress();
    assert_eq!(current, 0);
    assert_eq!(limit, 4);
    assert_eq!(permille, 0);
    let generator = generator.process().unwrap();
    let (current2, limit2, _) = generator.progress();
    assert_eq!(limit2, 4);
    assert!(current2 <= limit2);
}

#[test]
fn process_on_completed_fails() {
    let map = DensityMap::new(2, 2, 1, vec![1, 2, 3, 1]).unwrap();
    let mut generator = DensityMeshGenerator::new(vec![], map, small_settings());
    loop {
        assert!(!generator.is_done());
        generator = generator.process().unwrap();
        if generator.is_done() {
            break;
        }
    }
    let result = generator.process();
    assert!(matches!(
        result,
        Err(GenerateDensityMeshError::AlreadyCompleted(_))
    ));
}

#[test]
fn uninitialized_generator_fails() {
    let generator = DensityMeshGenerator::default();
    assert!(matches!(
        generator.process(),
        Err(GenerateDensityMeshError::UninitializedGenerator)
    ));
}

#[test]
fn degenerate_points_fail_triangulation() {
    // A one-row field yields collinear candidates only.
    let map = DensityMap::new(4, 1, 1, vec![9, 9, 9, 9]).unwrap();
    let generator = DensityMeshGenerator::new(vec![], map, small_settings());
    assert!(matches!(
        generator.process_wait(),
        Err(GenerateDensityMeshError::FailedTriangulation)
    ));
}

#[test]
fn empty_field_fails_triangulation() {
    let map = DensityMap::new(2, 2, 1, vec![0, 0, 0, 0]).unwrap();
    let generator = DensityMeshGenerator::new(vec![], map, small_settings());
    assert!(matches!(
        generator.process_wait(),
        Err(GenerateDensityMeshError::FailedTriangulation)
    ));
}

#[test]
fn tracked_processing_reports_progress() {
    let map = DensityMap::new(2, 2, 1, vec![1, 2, 3, 1]).unwrap();
    let generator = DensityMeshGenerator::new(vec![], map, small_settings());
    let calls = std::cell::Cell::new(0usize);
    let mesh = generator
        .process_wait_tracked(|current, limit, permille| {
            assert!(current <= limit);
            assert!(permille <= 1000);
            calls.set(calls.get() + 1);
        })
        .unwrap();
    assert!(calls.get() > 0);
    assert_mesh_sound(&mesh);
}

#[test]
fn extrusion_adds_skirt_at_exact_distance() {
    let map = DensityMap::new(2, 2, 1, vec![1, 2, 3, 1]).unwrap();
    let settings = GenerateDensityMeshSettings {
        extrude_size: Some(2000),
        ..small_settings()
    };
    let generator = DensityMeshGenerator::new(vec![], map, settings);
    let mesh = generator.process_wait().unwrap();
    assert_mesh_sound(&mesh);
    // Four core points, four outline edges: one offset point per outline
    // vertex and two skirt triangles per outline edge.
    assert_eq!(mesh.points.len(), 8);
    assert_eq!(mesh.triangles.len(), 2 + 8);
    // Every offset point lies at the extrusion distance from some core
    // point, within the fixed-point rounding tolerance.
    let core = [(0i64, 0i64), (0, 1000), (1000, 0), (1000, 1000)];
    let mut skirt_points = 0;
    for p in &mesh.points {
        if core.contains(&(p.x, p.y)) {
            continue;
        }
        skirt_points += 1;
        let nearest = core
            .iter()
            .map(|(cx, cy)| {
                let dx = (p.x - cx) as f64;
                let dy = (p.y - cy) as f64;
                (dx * dx + dy * dy).sqrt()
            })
            .fold(f64::INFINITY, f64::min);
        assert!(
            (nearest - 2000.0).abs() < 10.0,
            "skirt point {:?} at distance {}",
            (p.x, p.y),
            nearest
        );
    }
    assert_eq!(skirt_points, 4);
}

#[test]
fn chunk_seeding_adds_border_points() {
    let map = DensityMap::new(4, 4, 1, vec![0; 16]).unwrap();
    let settings = GenerateDensityMeshSettings {
        is_chunk: true,
        ..small_settings()
    };
    let generator = DensityMeshGenerator::new(vec![Coord::new(500, 500)], map, settings);
    match &generator {
        DensityMeshGenerator::FindingPoints { points, .. } => {
            // The seed point, four corners, and evenly spaced border points.
            assert_eq!(points[0].x, 500);
            assert!(points.len() > 5);
            assert!(points.contains(&Coord::new(0, 0)));
            assert!(points.contains(&Coord::new(3000, 0)));
            assert!(points.contains(&Coord::new(3000, 3000)));
            assert!(points.contains(&Coord::new(0, 3000)));
        }
        _ => panic!("expected the point-finding phase"),
    }
}

#[test]
fn keep_invisible_triangles_skips_filter() {
    // A field with a hole in the middle: with the filter on, fewer
    // triangles survive than with it off.
    let bytes = vec![
        9, 9, 9, 9, 9, //
        9, 0, 0, 0, 9, //
        9, 0, 0, 0, 9, //
        9, 0, 0, 0, 9, //
        9, 9, 9, 9, 9,
    ];
    let map = DensityMap::new(5, 5, 1, bytes.clone()).unwrap();
    let kept = DensityMeshGenerator::new(
        vec![],
        map,
        GenerateDensityMeshSettings {
            keep_invisible_triangles: true,
            ..small_settings()
        },
    )
    .process_wait()
    .unwrap();
    let map2 = DensityMap::new(5, 5, 1, bytes).unwrap();
    let filtered = DensityMeshGenerator::new(vec![], map2, small_settings())
        .process_wait()
        .unwrap();
    assert!(filtered.triangles.len() <= kept.triangles.len());
    assert_mesh_sound(&kept);
    assert_mesh_sound(&filtered);
}

#[test]
fn timeout_processing_completes_with_budget() {
    let map = DensityMap::new(2, 2, 1, vec![1, 2, 3, 1]).unwrap();
    let generator = DensityMeshGenerator::new(vec![], map, small_settings());
    let (done, status) = generator.process_wait_timeout(10_000).unwrap();
    assert_eq!(status, density_mesh::process_status::ProcessStatus::MeshChanged);
    assert!(done.is_done());
    match done.get_mesh_or_self() {
        Ok(mesh) => assert_mesh_sound(&mesh),
        Err(_) => panic!("completed generator must hand out its mesh"),
    }
}

#[test]
fn tracked_processing_reports_before_first_step() {
    let map = DensityMap::new(2, 2, 1, vec![1, 2, 3, 1]).unwrap();
    let generator = DensityMeshGenerator::new(vec![], map, small_settings());
    let first = std::cell::Cell::new(None);
    generator
        .process_wait_tracked(|current, limit, _| {
            if first.get().is_none() {
                first.set(Some((current, limit)));
            }
        })
        .unwrap();
    // The first invocation happens before any step: nothing consumed yet.
    assert_eq!(first.get(), Some((0, 4)));
}

#[test]
fn timeout_tracked_processing_completes() {
    let map = DensityMap::new(2, 2, 1, vec![1, 2, 3, 1]).unwrap();
    let generator = DensityMeshGenerator::new(vec![], map, small_settings());
    let calls = std::cell::Cell::new(0usize);
    let (done, status) = generator
        .process_wait_timeout_tracked(|_, _, permille| {
            assert!(permille <= 1000);
            calls.set(calls.get() + 1);
        }, 10_000)
        .unwrap();
    assert_eq!(status, density_mesh::process_status::ProcessStatus::MeshChanged);
    assert!(done.is_done());
    assert!(calls.get() > 1);
}
