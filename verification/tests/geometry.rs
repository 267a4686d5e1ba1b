use sc2_ai::geometry::{Rect, Vec2};
use sc2_ai::math::isqrt;

#[test]
fn distance_squared_is_exact() {
    let a = Vec2 { x: 0, y: 0 };
    let b = Vec2 { x: 30, y: 40 };
    assert_eq!(a.distance_squared(b), 2500);
    assert_eq!(b.distance_squared(a), 2500);
    let c = Vec2 { x: -30, y: -40 };
    assert_eq!(a.distance_squared(c), 2500);
}

#[test]
fn component_min_max() {
    let a = Vec2 { x: 1, y: 40 };
    let b = Vec2 { x: 30, y: 4 };
    assert_eq!(a.min(b), Vec2 { x: 1, y: 4 });
    assert_eq!(a.max(b), Vec2 { x: 30, y: 40 });
}

#[test]
fn floor_and_ceil_align_to_the_world_grid() {
    let v = Vec2 { x: 37, y: -37 };
    assert_eq!(v.floor(), Vec2 { x: 30, y: -40 });
    assert_eq!(v.ceil(), Vec2 { x: 40, y: -30 });
    let w = Vec2 { x: 40, y: -40 };
    assert_eq!(w.floor(), Vec2 { x: 40, y: -40 });
    assert_eq!(w.ceil(), Vec2 { x: 40, y: -40 });
}

#[test]
fn rect_from_corners_normalizes() {
    let r = Rect::from_corners(Vec2 { x: 30, y: -10 }, Vec2 { x: -30, y: 10 });
    assert_eq!(r.min, Vec2 { x: -30, y: -10 });
    assert_eq!(r.max, Vec2 { x: 30, y: 10 });
}

#[test]
fn rect_from_center_halves_the_size() {
    let r = Rect::from_center(Vec2 { x: 100, y: 200 }, Vec2 { x: 20, y: 10 });
    assert_eq!(r.min, Vec2 { x: 90, y: 195 });
    assert_eq!(r.max, Vec2 { x: 110, y: 205 });
}

#[test]
fn bounding_points_covers_all_points() {
    assert_eq!(Rect::bounding_points(&Vec::new()), None);
    let pts = vec![
        Vec2 { x: 30, y: 0 },
        Vec2 { x: -10, y: 60 },
        Vec2 { x: 5, y: -5 },
    ];
    let bb = Rect::bounding_points(&pts).unwrap();
    assert_eq!(bb.min, Vec2 { x: -10, y: -5 });
    assert_eq!(bb.max, Vec2 { x: 30, y: 60 });
}

#[test]
fn overlap_is_strict() {
    let a = Rect { min: Vec2 { x: 0, y: 0 }, max: Vec2 { x: 10, y: 10 } };
    let touching = Rect { min: Vec2 { x: 10, y: 0 }, max: Vec2 { x: 20, y: 10 } };
    let crossing = Rect { min: Vec2 { x: 5, y: 5 }, max: Vec2 { x: 20, y: 20 } };
    assert!(!a.overlaps(&touching));
    assert!(a.overlaps(&crossing));
}

#[test]
fn rectangle_gap_metric() {
    let a = Rect { min: Vec2 { x: 0, y: 0 }, max: Vec2 { x: 10, y: 10 } };
    // Separated along x only: gap 30, squared 900.
    let right = Rect { min: Vec2 { x: 40, y: 0 }, max: Vec2 { x: 50, y: 10 } };
    assert_eq!(a.min_distance_squared(&right), 900);
    // Separated diagonally: 30 along each axis.
    let diag = Rect { min: Vec2 { x: 40, y: 40 }, max: Vec2 { x: 50, y: 50 } };
    assert_eq!(a.min_distance_squared(&diag), 1800);
    // Overlapping: zero gap.
    let over = Rect { min: Vec2 { x: 5, y: 5 }, max: Vec2 { x: 15, y: 15 } };
    assert_eq!(a.min_distance_squared(&over), 0);
    // Touching: still zero.
    let touch = Rect { min: Vec2 { x: 10, y: 0 }, max: Vec2 { x: 20, y: 10 } };
    assert_eq!(a.min_distance_squared(&touch), 0);
}

#[test]
fn integer_square_root_floors() {
    assert_eq!(isqrt(0), 0);
    assert_eq!(isqrt(1), 1);
    assert_eq!(isqrt(3), 1);
    assert_eq!(isqrt(4), 2);
    assert_eq!(isqrt(15), 3);
    assert_eq!(isqrt(16), 4);
    assert_eq!(isqrt(1_000_000), 1000);
    assert_eq!(isqrt(999_999), 999);
    assert_eq!(isqrt(1_099_511_627_776), 1_048_576);
}
