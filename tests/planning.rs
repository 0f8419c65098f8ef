use flight_planner::elevation::{classify, ElevationGrid, ElevationSample};
use flight_planner::footprint::{swath_spacing, Drone, PlanError};
use flight_planner::geometry::ProjPoint;
use flight_planner::metrics::{calculate_flight_time, calculate_search_area};
use flight_planner::orientation::longest_edge;
use flight_planner::plan::{generate_flightpath, FlightPlanResult};
use flight_planner::slope::{displace, half_width_of, stride_of};
use flight_planner::waypoint::{CoverageRect, Waypoint};

fn pt(x: i64, y: i64) -> ProjPoint {
    ProjPoint { x, y }
}

fn square_ring(side: i64) -> Vec<ProjPoint> {
    vec![pt(0, 0), pt(side, 0), pt(side, side), pt(0, side), pt(0, 0)]
}

fn drone(overlap_bp: u64, speed_mm_per_s: u64) -> Drone {
    Drone {
        model: String::from("M30"),
        fov_millideg: 60_000,
        altitude_mm: 100_000,
        overlap_bp,
        speed_mm_per_s,
    }
}

/// Ground footprint of a 60 degree camera at 100 m, in millimetres.
fn footprint_60deg_100m() -> u64 {
    (2.0 * 100_000.0 * (30.0f64).to_radians().tan()) as u64
}

fn waypoint_at(x: i64, y: i64) -> Waypoint {
    let p = pt(x, y);
    Waypoint {
        coverage_rect: CoverageRect { coords: [p; 5], center: p },
        position: p,
        bearing_millideg: 0,
        altitude_mm: 100_000,
        line: 0,
        station: 0,
    }
}

/// Splits the flight into passes: runs of consecutive waypoints on one swath line.
fn passes(plan: &FlightPlanResult) -> Vec<Vec<Waypoint>> {
    let mut out: Vec<Vec<Waypoint>> = Vec::new();
    for w in &plan.waypoints {
        match out.last_mut() {
            Some(pass) if pass[0].line == w.line => pass.push(*w),
            _ => out.push(vec![*w]),
        }
    }
    out
}

fn flat_plan() -> FlightPlanResult {
    let ring = square_ring(1_000_000);
    generate_flightpath(&ring, &ring, &drone(7_000, 10_000), footprint_60deg_100m(), None).unwrap()
}

#[test]
fn spacing_from_footprint_and_overlap() {
    assert_eq!(footprint_60deg_100m(), 115_470);
    assert_eq!(swath_spacing(115_470, 7_000), Ok(34_641));
    assert_eq!(swath_spacing(1_000, 0), Ok(1_000));
    assert_eq!(swath_spacing(1_000, 9_999), Err(PlanError::NonPositiveSpacing));
    assert_eq!(swath_spacing(100_000, 9_999), Ok(10));
    assert_eq!(swath_spacing(0, 5_000), Err(PlanError::NonPositiveSpacing));
}

#[test]
fn spacing_positive_below_full_overlap() {
    for overlap in [0u64, 1, 2_500, 5_000, 7_000, 9_000, 9_999] {
        let s = swath_spacing(200_000, overlap).unwrap();
        assert!(s > 0 && s <= 200_000);
    }
    assert_eq!(swath_spacing(200_000, 10_000), Err(PlanError::OverlapTooHigh));
    assert_eq!(swath_spacing(200_000, 12_000), Err(PlanError::OverlapTooHigh));
}

#[test]
fn scenario_square_flat_terrain() {
    let plan = flat_plan();
    let ps = passes(&plan);
    assert_eq!(ps.len(), 29);
    for p in &ps {
        assert_eq!(p.len(), 115);
    }
    assert_eq!(plan.waypoints.len(), 29 * 115);
    assert_eq!(plan.search_area_mm2, 1_000_000_000_000);
    let km2 = plan.search_area_mm2 as f64 / 1.0e12;
    assert!((km2 - 1.0).abs() < 1e-9);
    assert!(plan.est_flight_time_ms > 0);
    assert_eq!(plan.truncated_lines, 0);
    // the middle line runs along y = 500 m, lines are one spacing apart
    assert_eq!(ps[14][0].position.y, 500_000);
    assert_eq!(ps[15][0].position.y, 500_000 + 34_641);
    // coverage squares are one footprint wide
    let r = ps[0][0].coverage_rect;
    assert_eq!(r.center, ps[0][0].position);
    assert_eq!(r.coords[0], r.coords[4]);
    let xs: Vec<i64> = r.coords.iter().map(|c| c.x).collect();
    let width = xs.iter().max().unwrap() - xs.iter().min().unwrap();
    assert!((width - 115_470).abs() <= 2);
}

#[test]
fn scenario_passes_alternate_direction() {
    let plan = flat_plan();
    let ps = passes(&plan);
    for (k, p) in ps.iter().enumerate() {
        let first = p[0].position.x;
        let last = p[p.len() - 1].position.x;
        if k % 2 == 0 {
            assert!(first < last);
        } else {
            assert!(first > last);
        }
        for w in p.windows(2) {
            if k % 2 == 0 {
                assert!(w[0].station < w[1].station);
            } else {
                assert!(w[0].station > w[1].station);
            }
        }
    }
}

#[test]
fn scenario_full_overlap_fails() {
    let ring = square_ring(1_000_000);
    let r = generate_flightpath(&ring, &ring, &drone(10_000, 10_000), footprint_60deg_100m(), None);
    assert!(matches!(r, Err(PlanError::OverlapTooHigh)));
}

#[test]
fn scenario_flight_time_two_waypoints() {
    let ws = vec![waypoint_at(0, 0), waypoint_at(300_000, 400_000)];
    let ms = calculate_flight_time(&ws, 5_000);
    assert_eq!(ms, 100_000);
    let minutes = ms as f64 / 60_000.0;
    assert!((minutes - 1.6667).abs() < 1e-3);
    assert_eq!(calculate_flight_time(&vec![waypoint_at(5, 5)], 5_000), 0);
    assert_eq!(calculate_flight_time(&Vec::new(), 5_000), 0);
}

fn nodata_grid() -> ElevationGrid {
    ElevationGrid::from_parts(-100_000, 1_100_000, 10_000, -10_000, 120, 120, vec![-32_767_000; 14_400])
        .unwrap()
}

#[test]
fn scenario_all_nodata_raster_leaves_points_unmoved() {
    let ring = square_ring(1_000_000);
    let grid = nodata_grid();
    let plan = generate_flightpath(&ring, &ring, &drone(7_000, 10_000), footprint_60deg_100m(), Some(&grid))
        .unwrap();
    let ps = passes(&plan);
    assert_eq!(ps.len(), 29);
    assert_eq!(plan.truncated_lines, 0);
    for w in &plan.waypoints {
        assert_eq!(w.position, w.coverage_rect.center);
        let xs: Vec<i64> = w.coverage_rect.coords.iter().map(|c| c.x).collect();
        let width = xs.iter().max().unwrap() - xs.iter().min().unwrap();
        assert!((width - 115_470).abs() <= 2);
    }
    // the flat plan's lines are the same lines
    let flat = flat_plan();
    let fps = passes(&flat);
    for (a, b) in ps.iter().zip(fps.iter()) {
        assert_eq!(a[0].line, b[0].line);
        assert_eq!(a[0].position.y, b[0].position.y);
    }
}

#[test]
fn unreadable_raster_matches_fixed_resolution_plan() {
    let ring = square_ring(1_000_000);
    let broken = ElevationGrid {
        origin_x: 0,
        origin_y: 0,
        pixel_width: 0,
        pixel_height: -10_000,
        columns: 2,
        rows: 2,
        cells: vec![0; 4],
    };
    let a = flat_plan();
    let b = generate_flightpath(&ring, &ring, &drone(7_000, 10_000), footprint_60deg_100m(), Some(&broken))
        .unwrap();
    assert_eq!(a.waypoints, b.waypoints);
    assert_eq!(a.est_flight_time_ms, b.est_flight_time_ms);
    assert_eq!(a.search_area_mm2, b.search_area_mm2);
}

#[test]
fn nodata_marker_is_unavailable() {
    assert_eq!(classify(-32_767_000), ElevationSample::Unavailable);
    assert_eq!(classify(-32_766_950), ElevationSample::Unavailable);
    assert_eq!(classify(-32_767_099), ElevationSample::Unavailable);
    assert_eq!(classify(-32_766_900), ElevationSample::Value(-32_766_900));
    assert_eq!(classify(-32_767_100), ElevationSample::Value(-32_767_100));
    assert_eq!(classify(0), ElevationSample::Value(0));
}

#[test]
fn grid_sampling_and_bounds() {
    // 3 x 2 grid, 10 m pixels, origin at the top-left corner (north-up)
    let grid = ElevationGrid::from_parts(0, 20_000, 10_000, -10_000, 3, 2, vec![1, 2, 3, 4, 5, -32_767_000])
        .unwrap();
    assert_eq!(grid.sample(5_000, 15_000), ElevationSample::Value(1));
    assert_eq!(grid.sample(25_000, 15_000), ElevationSample::Value(3));
    assert_eq!(grid.sample(15_000, 5_000), ElevationSample::Value(5));
    assert_eq!(grid.sample(25_000, 5_000), ElevationSample::Unavailable);
    assert_eq!(grid.sample(-1, 15_000), ElevationSample::Unavailable);
    assert_eq!(grid.sample(30_000, 15_000), ElevationSample::Unavailable);
    assert_eq!(grid.sample(5_000, 20_001), ElevationSample::Unavailable);
    assert_eq!(grid.sample(5_000, 0), ElevationSample::Unavailable);
    assert_eq!(grid.sample(0, 20_000), ElevationSample::Value(1));
    assert!(ElevationGrid::from_parts(0, 0, 10, 10, 3, 2, vec![0; 5]).is_none());
    assert!(ElevationGrid::from_parts(0, 0, 0, 10, 1, 1, vec![0]).is_none());
}

#[test]
fn gradient_needs_all_four_samples() {
    // 5 x 5 grid of 1 m pixels rising 100 mm per pixel eastwards
    let mut cells = Vec::new();
    for _row in 0..5 {
        for col in 0..5 {
            cells.push(col as i64 * 100);
        }
    }
    let grid = ElevationGrid::from_parts(0, 5_000, 1_000, -1_000, 5, 5, cells.clone()).unwrap();
    assert_eq!(grid.gradient(pt(2_500, 2_500)), Some((400, 0)));
    assert_eq!(grid.gradient(pt(1_500, 2_500)), None);
    cells[2 * 5 + 4] = -32_767_000;
    let holed = ElevationGrid::from_parts(0, 5_000, 1_000, -1_000, 5, 5, cells).unwrap();
    assert_eq!(holed.gradient(pt(2_500, 2_500)), None);
}

#[test]
fn slope_shortens_stride_and_widens_footprint() {
    assert_eq!(stride_of(10_000, 4_000, None), 40_000);
    assert_eq!(stride_of(10_000, 4_000, Some((0, 0))), 40_000);
    // 45 degrees: cosine 0.7071
    assert_eq!(stride_of(10_000, 4_000, Some((4_000, 0))), 28_284);
    // steeper than cos = 0.1: a tenth of the spacing
    assert_eq!(stride_of(10_000, 4_000, Some((400_000, 0))), 4_000);
    assert_eq!(half_width_of(115_470, 4_000, None), 57_735);
    assert_eq!(half_width_of(115_470, 4_000, Some((0, 0))), 57_735);
    assert_eq!(half_width_of(100_000, 4_000, Some((4_000, 0))), 70_710);
    assert_eq!(half_width_of(100_000, 4_000, Some((400_000, 0))), 500_000);
}

#[test]
fn displacement_is_sideways_to_the_gradient() {
    let p = pt(1_000, 2_000);
    assert_eq!(displace(p, 100_000, None), p);
    assert_eq!(displace(p, 100_000, Some((0, 0))), pt(1_000, 102_000));
    assert_eq!(displace(p, 100_000, Some((500, 0))), pt(1_000, 102_000));
    assert_eq!(displace(p, 100_000, Some((0, 500))), pt(-99_000, 2_000));
    let d = displace(pt(0, 0), 100_000, Some((300, 400)));
    assert!((d.x + 80_000).abs() <= 1 && (d.y - 60_000).abs() <= 1);
}

#[test]
fn longest_edge_first_wins() {
    let rect = vec![pt(0, 0), pt(4_000, 0), pt(4_000, 2_000), pt(0, 2_000), pt(0, 0)];
    assert_eq!(longest_edge(&rect), Ok(0));
    let rotated = vec![pt(4_000, 0), pt(4_000, 2_000), pt(0, 2_000), pt(0, 0), pt(4_000, 0)];
    assert_eq!(longest_edge(&rotated), Ok(1));
    let flat = vec![pt(5, 5), pt(5, 5), pt(5, 5)];
    assert_eq!(longest_edge(&flat), Err(PlanError::DegenerateRectangle));
    assert_eq!(longest_edge(&vec![pt(1, 1)]), Err(PlanError::DegenerateRectangle));
}

#[test]
fn sweep_direction_survives_rotation_of_listing() {
    let ring = vec![pt(0, 0), pt(6_000, 0), pt(6_000, 1_000), pt(0, 1_000), pt(0, 0)];
    let d = drone(5_000, 1_000);
    let a = generate_flightpath(&ring, &ring, &d, 400, None).unwrap();
    let rotated = vec![pt(6_000, 1_000), pt(0, 1_000), pt(0, 0), pt(6_000, 0), pt(6_000, 1_000)];
    let b = generate_flightpath(&ring, &rotated, &d, 400, None).unwrap();
    // both sweeps run along x: every pass keeps y fixed
    for plan in [&a, &b] {
        for p in passes(plan) {
            assert!(p.iter().all(|w| w.position.y == p[0].position.y));
        }
    }
}

#[test]
fn search_area_of_polygons() {
    assert_eq!(calculate_search_area(&square_ring(1_000)), 1_000_000);
    let tri = vec![pt(0, 0), pt(0, 3_000), pt(4_000, 0)];
    assert_eq!(calculate_search_area(&tri), 6_000_000);
}

#[test]
fn degenerate_inputs_are_refused() {
    let ring = square_ring(1_000_000);
    let line = vec![pt(0, 0), pt(10, 10), pt(20, 20)];
    let d = drone(7_000, 10_000);
    assert!(matches!(generate_flightpath(&line, &ring, &d, 115_470, None), Err(PlanError::DegeneratePolygon)));
    let dot = vec![pt(3, 3), pt(3, 3), pt(3, 3), pt(3, 3), pt(3, 3)];
    assert!(matches!(generate_flightpath(&ring, &dot, &d, 115_470, None), Err(PlanError::DegenerateRectangle)));
    assert!(matches!(generate_flightpath(&ring, &ring, &d, 0, None), Err(PlanError::NonPositiveSpacing)));
    assert!(matches!(generate_flightpath(&ring, &ring, &drone(7_000, 0), 115_470, None), Err(PlanError::ZeroSpeed)));
    let far = vec![pt(0, 0), pt(2_000_000_000_000, 0), pt(0, 10)];
    assert!(matches!(generate_flightpath(&far, &ring, &d, 115_470, None), Err(PlanError::OutOfRange)));
}

#[test]
fn steep_terrain_moves_waypoints() {
    // 100 m x 100 m square over a plane rising 1 m per metre eastwards (45 degrees)
    let ring = square_ring(100_000);
    let mut cells = Vec::new();
    for _row in 0..40 {
        for col in 0..40 {
            cells.push(col as i64 * 5_000);
        }
    }
    let grid = ElevationGrid::from_parts(-50_000, 150_000, 5_000, -5_000, 40, 40, cells).unwrap();
    let d = Drone { model: String::from("test"), fov_millideg: 60_000, altitude_mm: 10_000, overlap_bp: 5_000, speed_mm_per_s: 5_000 };
    let plan = generate_flightpath(&ring, &ring, &d, 20_000, Some(&grid)).unwrap();
    assert!(!plan.waypoints.is_empty());
    for w in &plan.waypoints {
        // gradient points east, so each waypoint is moved north by the altitude
        assert_eq!(w.position.x, w.coverage_rect.center.x);
        assert_eq!(w.position.y, w.coverage_rect.center.y + 10_000);
    }
    // strides of spacing * cos(45 degrees) along the line
    let ps = passes(&plan);
    let p = &ps[0];
    assert!(p.len() >= 2);
    assert_eq!((p[1].station - p[0].station).abs(), 28_284);
}

#[test]
fn empty_and_concave_polygons() {
    let ring = square_ring(1_000_000);
    let d = drone(7_000, 10_000);
    assert!(matches!(generate_flightpath(&Vec::new(), &ring, &d, 115_470, None), Err(PlanError::DegeneratePolygon)));
    // an L-shaped polygon: the notch at the top right holds no waypoints
    let l_shape = vec![
        pt(0, 0),
        pt(1_000_000, 0),
        pt(1_000_000, 400_000),
        pt(400_000, 400_000),
        pt(400_000, 1_000_000),
        pt(0, 1_000_000),
    ];
    let plan = generate_flightpath(&l_shape, &ring, &d, 115_470, None).unwrap();
    assert!(!plan.waypoints.is_empty());
    for w in &plan.waypoints {
        let p = w.coverage_rect.center;
        assert!(!(p.x > 400_000 && p.y > 400_000));
    }
    assert_eq!(plan.search_area_mm2, 1_000_000_000_000 - 360_000_000_000);
}
