use kantig::opts::{Frac, Options, PixelUnit};
use kantig::sampler::{collect_edge_points, edge_points, remove_close_points, sample_from_points, EdgeMask};
use kantig::{LowPolyError, Point};

fn p(x: u32, y: u32) -> Point {
    Point { x, y }
}

fn mask(width: u32, height: u32, marked: &[(u32, u32)]) -> EdgeMask {
    let mut data = vec![false; (width * height) as usize];
    for &(x, y) in marked {
        data[(y * width + x) as usize] = true;
    }
    EdgeMask::new(width, height, data).unwrap()
}

#[test]
fn empty_mask_yields_only_corners() {
    // edge mask 4x4 all false, target 10000, min distance 4
    let m = mask(4, 4, &[]);
    let pts = edge_points(&m, &PixelUnit::Absolute(10000), 4, Some(7));
    assert_eq!(pts, vec![p(0, 0), p(4, 0), p(0, 4), p(4, 4)]);
}

#[test]
fn corners_always_last_in_fixed_order() {
    let m = mask(3, 5, &[(0, 0), (1, 1), (2, 2), (2, 4)]);
    let pts = edge_points(&m, &PixelUnit::Absolute(10000), 0, Some(3));
    let n = pts.len();
    assert_eq!(&pts[n - 4..], &[p(0, 0), p(3, 0), p(0, 5), p(3, 5)]);
}

#[test]
fn collection_is_row_major() {
    let m = mask(2, 2, &[(1, 0), (0, 1)]);
    let pts = collect_edge_points(&m);
    assert_eq!(pts, vec![p(1, 0), p(0, 1)]);
}

#[test]
fn zero_min_distance_keeps_duplicates() {
    // duplicate points survive when no minimum distance is enforced
    let pts = sample_from_points(vec![p(2, 2), p(2, 2)], &PixelUnit::Absolute(10), 0, 4, 4);
    assert_eq!(pts, vec![p(2, 2), p(2, 2), p(0, 0), p(4, 0), p(0, 4), p(4, 4)]);
}

#[test]
fn removal_is_greedy_in_order() {
    let mut pts = vec![p(0, 0), p(3, 0), p(6, 0)];
    remove_close_points(&mut pts, 4);
    assert_eq!(pts, vec![p(0, 0), p(6, 0)]);

    let mut pts = vec![p(0, 0), p(3, 0), p(5, 0)];
    remove_close_points(&mut pts, 4);
    assert_eq!(pts, vec![p(0, 0), p(5, 0)]);
}

#[test]
fn removed_points_do_not_suppress_others() {
    // (3,0) is removed by (0,0); (4,0) survives although it is within range
    // of the removed (3,0), because removed points never suppress in turn
    let mut pts = vec![p(0, 0), p(3, 0), p(4, 0)];
    remove_close_points(&mut pts, 4);
    assert_eq!(pts, vec![p(0, 0), p(4, 0)]);
}

#[test]
fn huge_min_distance_leaves_one_survivor() {
    let mut pts = vec![p(0, 0), p(1, 1), p(2, 0), p(3, 3)];
    remove_close_points(&mut pts, 1000);
    assert_eq!(pts, vec![p(0, 0)]);
}

#[test]
fn limit_of_zero_yields_only_corners() {
    let all: Vec<(u32, u32)> = (0..4).flat_map(|y| (0..4).map(move |x| (x, y))).collect();
    let m = mask(4, 4, &all);
    let pts = edge_points(&m, &PixelUnit::Absolute(0), 4, Some(8));
    assert_eq!(pts, vec![p(0, 0), p(4, 0), p(0, 4), p(4, 4)]);
    let zero = Frac::new(0, 1).unwrap();
    let m2 = mask(4, 4, &all);
    let pts = edge_points(&m2, &PixelUnit::Relative(zero), 4, Some(8));
    assert_eq!(pts, vec![p(0, 0), p(4, 0), p(0, 4), p(4, 4)]);
}

#[test]
fn diagonal_min_distance_keeps_one_point() {
    // a minimum distance beyond the image diagonal: one survivor, four corners
    let all: Vec<(u32, u32)> = (0..4).flat_map(|y| (0..4).map(move |x| (x, y))).collect();
    let m = mask(4, 4, &all);
    let pts = edge_points(&m, &PixelUnit::Absolute(10000), 100, Some(2));
    assert_eq!(pts.len(), 5);
}

#[test]
fn absolute_limit_truncates() {
    let pts = sample_from_points(
        vec![p(0, 0), p(5, 0), p(0, 5), p(5, 5), p(9, 9)],
        &PixelUnit::Absolute(2),
        0,
        10,
        10,
    );
    assert_eq!(pts.len(), 6);
    assert_eq!(&pts[..2], &[p(0, 0), p(5, 0)]);
}

#[test]
fn relative_limit_truncates_toward_zero() {
    // half of five points, truncated: two
    let half = Frac::new(1, 2).unwrap();
    let pts = sample_from_points(
        vec![p(0, 0), p(5, 0), p(0, 5), p(5, 5), p(9, 9)],
        &PixelUnit::Relative(half),
        0,
        10,
        10,
    );
    assert_eq!(pts.len(), 2 + 4);
}

#[test]
fn pixel_relative_limit_counts_cells() {
    // a third of a 3x3 image: three points
    let third = Frac::new(1, 3).unwrap();
    let all: Vec<(u32, u32)> = (0..3).flat_map(|y| (0..3).map(move |x| (x, y))).collect();
    let m = mask(3, 3, &all);
    let pts = edge_points(&m, &PixelUnit::PixelRelative(third), 0, Some(1));
    assert_eq!(pts.len(), 3 + 4);
}

#[test]
fn truncation_never_exceeds_edge_count() {
    let m = mask(4, 4, &[(1, 1), (2, 2)]);
    let pts = edge_points(&m, &PixelUnit::Absolute(10000), 0, Some(5));
    assert_eq!(pts.len(), 2 + 4);
}

#[test]
fn sampling_is_deterministic_with_a_seed() {
    let marked: Vec<(u32, u32)> = (0..8).flat_map(|y| (0..8).map(move |x| (x, y))).collect();
    let m1 = mask(8, 8, &marked);
    let m2 = mask(8, 8, &marked);
    let a = edge_points(&m1, &PixelUnit::Absolute(20), 2, Some(42));
    let b = edge_points(&m2, &PixelUnit::Absolute(20), 2, Some(42));
    assert_eq!(a, b);
}

#[test]
fn shuffle_keeps_the_points() {
    let marked = [(0u32, 0u32), (3, 1), (1, 2), (2, 3)];
    let m = mask(4, 4, &marked);
    let pts = edge_points(&m, &PixelUnit::Absolute(10000), 0, Some(9));
    let mut non_corner: Vec<Point> = pts[..pts.len() - 4].to_vec();
    non_corner.sort_by_key(|q| (q.y, q.x));
    let expected: Vec<Point> = vec![p(0, 0), p(3, 1), p(1, 2), p(2, 3)];
    assert_eq!(non_corner, expected);
}

#[test]
fn distance_invariant_holds_between_survivors() {
    let marked: Vec<(u32, u32)> = (0..6).flat_map(|y| (0..6).map(move |x| (x, y))).collect();
    let m = mask(6, 6, &marked);
    let d: u32 = 3;
    let pts = edge_points(&m, &PixelUnit::Absolute(10000), d, Some(11));
    let non_corner = &pts[..pts.len() - 4];
    for i in 0..non_corner.len() {
        for j in (i + 1)..non_corner.len() {
            let dx = non_corner[i].x as i64 - non_corner[j].x as i64;
            let dy = non_corner[i].y as i64 - non_corner[j].y as i64;
            assert!(dx * dx + dy * dy >= (d as i64) * (d as i64));
        }
    }
}

#[test]
fn edge_number_picks_the_single_active_option() {
    let base = Options {
        points: None,
        points_relative: None,
        points_pixel_relative: None,
        points_min_distance: 4,
        no_antialiasing: false,
        rng_seed: None,
    };
    assert_eq!(base.edge_number(), Ok(PixelUnit::Absolute(10000)));

    let abs = Options { points: Some(300), ..base };
    assert_eq!(abs.edge_number(), Ok(PixelUnit::Absolute(300)));

    let half = Frac::new(1, 2).unwrap();
    let rel = Options { points_relative: Some(half), ..base };
    assert_eq!(rel.edge_number(), Ok(PixelUnit::Relative(half)));

    let pixrel = Options { points_pixel_relative: Some(half), ..base };
    assert_eq!(pixrel.edge_number(), Ok(PixelUnit::PixelRelative(half)));
}

#[test]
fn edge_number_rejects_mixed_signals() {
    let half = Frac::new(1, 2).unwrap();
    let conflicting = Options {
        points: Some(300),
        points_relative: Some(half),
        points_pixel_relative: None,
        points_min_distance: 4,
        no_antialiasing: false,
        rng_seed: None,
    };
    assert_eq!(conflicting.edge_number(), Err(LowPolyError::CLIError));
    assert_eq!(
        conflicting.edge_number().unwrap_err().message(),
        "only one of the point count options can be set"
    );
}

#[test]
fn frac_rejects_values_above_one() {
    assert!(Frac::new(3, 2).is_none());
    assert!(Frac::new(1, 0).is_none());
    assert!(Frac::new(2, 2).is_some());
    assert!(Frac::new(0, 1).is_some());
}
