use sc2_ai::geometry::{Rect, Vec2};
use sc2_ai::grid::{GridStatus, PlacementGrid};
use sc2_ai::webview::{ImageData, Size2DI};

fn image(width: i32, height: i32, bits_per_pixel: i32, data: Vec<u8>) -> ImageData {
    ImageData { bits_per_pixel, size: Size2DI { x: width, y: height }, data }
}

#[test]
fn from_image_rejects_wrong_formats() {
    // Eight bits per pixel is a height map, not a placement grid.
    assert!(PlacementGrid::from_image(&image(8, 1, 8, vec![0])).is_none());
    // Too little data for the advertised size.
    assert!(PlacementGrid::from_image(&image(8, 2, 1, vec![0])).is_none());
    // Too much data.
    assert!(PlacementGrid::from_image(&image(8, 1, 1, vec![0, 0])).is_none());
}

#[test]
fn from_image_unpacks_bits_most_significant_first() {
    // One row of eight cells: 0b1010_0001 marks cells 0, 2 and 7 empty.
    let g = PlacementGrid::from_image(&image(8, 1, 1, vec![0b1010_0001])).unwrap();
    assert_eq!(g.width(), 8);
    assert_eq!(g.height(), 1);
    // Cell x is at world coordinate x, fixed-point x * 10.
    let at = |x: i64| Vec2 { x: x * 10, y: 0 };
    assert!(g.is_empty(at(0)));
    assert!(!g.is_empty(at(1)));
    assert!(g.is_empty(at(2)));
    assert!(!g.is_empty(at(3)));
    assert!(!g.is_empty(at(6)));
    assert!(g.is_empty(at(7)));
    // Out of range is never empty.
    assert!(!g.is_empty(Vec2 { x: 80, y: 0 }));
    assert!(!g.is_empty(Vec2 { x: -1, y: 0 }));
    assert!(!g.is_empty(Vec2 { x: 0, y: 10 }));
}

#[test]
fn point_queries_floor_their_coordinates() {
    let g = PlacementGrid::from_image(&image(8, 1, 1, vec![0b1000_0000])).unwrap();
    // Anywhere within cell 0 counts as cell 0.
    assert!(g.is_empty(Vec2 { x: 9, y: 9 }));
    assert!(!g.is_empty(Vec2 { x: 10, y: 0 }));
    // is_invalid mirrors the catalog's reading: an existing, non-invalid
    // cell.
    assert!(g.is_invalid(Vec2 { x: 5, y: 5 }));
    assert!(!g.is_invalid(Vec2 { x: 15, y: 5 }));
    assert!(!g.is_invalid(Vec2 { x: -5, y: 0 }));
}

#[test]
fn area_queries_cover_the_floored_span() {
    // Two rows of eight cells, all empty.
    let g = PlacementGrid::from_image(&image(8, 2, 1, vec![0xff, 0xff])).unwrap();
    let r = Rect { min: Vec2 { x: 0, y: 0 }, max: Vec2 { x: 80, y: 20 } };
    assert!(g.is_area_empty(r));

    // Block one cell and the area stops being empty.
    let mut blocked = g.clone();
    blocked.mark_area_invalid(Vec2 { x: 35, y: 15 }, Vec2 { x: 10, y: 10 });
    assert!(!blocked.is_area_empty(r));
    // The blocked footprint covers exactly cell (3, 1).
    assert!(blocked.is_empty(Vec2 { x: 30, y: 0 }));
    assert!(!blocked.is_empty(Vec2 { x: 30, y: 10 }));
    assert!(blocked.is_empty(Vec2 { x: 40, y: 10 }));
    // Everything outside the blocked cell is still empty.
    let left = Rect { min: Vec2 { x: 0, y: 0 }, max: Vec2 { x: 30, y: 20 } };
    assert!(blocked.is_area_empty(left));
}

#[test]
fn marking_covers_the_footprint_span() {
    // A 4x4 all-empty grid; a 2x2 footprint centered at (2, 2) covers
    // cells 1..3 on both axes.
    let g = PlacementGrid::from_image(&image(4, 4, 1, vec![0xff, 0xff])).unwrap();
    let mut marked = g;
    marked.mark_area_invalid(Vec2 { x: 20, y: 20 }, Vec2 { x: 20, y: 20 });
    for y in 0..4_i64 {
        for x in 0..4_i64 {
            let p = Vec2 { x: x * 10, y: y * 10 };
            let inside = (1..3).contains(&x) && (1..3).contains(&y);
            assert_eq!(marked.is_empty(p), !inside);
        }
    }
}

#[test]
fn empty_image_gives_an_empty_grid() {
    let g = PlacementGrid::from_image(&image(0, 0, 1, Vec::new())).unwrap();
    assert_eq!(g.width(), 0);
    assert_eq!(g.height(), 0);
    assert!(!g.is_empty(Vec2 { x: 0, y: 0 }));
}

#[test]
fn default_cell_status_is_invalid() {
    assert_eq!(GridStatus::default(), GridStatus::Invalid);
}
