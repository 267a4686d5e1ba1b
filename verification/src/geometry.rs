//! Fixed-point planar geometry.
//!
//! Every coordinate is an `i64` holding tenths of a world unit (`SCALE`
//! subdivisions per world-grid line).  Distances are compared through their
//! squares, so all the geometry the placement engine needs — proximity
//! thresholds, rectangle gap metrics, grid alignment — is exact integer
//! arithmetic.

use vstd::prelude::*;

verus! {

/// Fixed-point subdivisions per world-grid unit.  Tenths keep half-unit
/// footprints and the tuned clearance constants exact.
pub const SCALE: i64 = 10;

/// Largest coordinate magnitude accepted for engine inputs (deposit and
/// structure positions, footprints).
pub const COORD_LIMIT: i64 = 100_000_000;

/// Bound on intermediate coordinates (expanded search rectangles, corners of
/// hypothetical footprints).  Chosen so that every squared difference of two
/// such coordinates, and sums of four of them, fit in `i64`.
pub const WIDE_LIMIT: i64 = 400_000_000;

/// A planar point or extent in fixed-point coordinates.
#[derive(Clone, Copy, Debug, Hash, PartialEq, Eq, Structural)]
pub struct Vec2 {
    pub x: i64,
    pub y: i64,
}

pub open spec fn sq(v: int) -> int {
    v * v
}

/// The positive part of `v`, as used by the rectangle gap metric.
pub open spec fn clamp_pos(v: int) -> int {
    if v > 0 {
        v
    } else {
        0
    }
}

pub open spec fn in_bounds(v: Vec2) -> bool {
    &&& -COORD_LIMIT <= v.x <= COORD_LIMIT
    &&& -COORD_LIMIT <= v.y <= COORD_LIMIT
}

pub open spec fn in_wide(v: Vec2) -> bool {
    &&& -WIDE_LIMIT <= v.x <= WIDE_LIMIT
    &&& -WIDE_LIMIT <= v.y <= WIDE_LIMIT
}

/// Squared Euclidean distance between two points.
pub open spec fn dist_sq(a: Vec2, b: Vec2) -> int {
    sq(a.x - b.x) + sq(a.y - b.y)
}

/// Greatest multiple of `SCALE` that does not exceed `v`.
pub open spec fn grid_floor(v: int) -> int {
    v - v % (SCALE as int)
}

/// Least multiple of `SCALE` that is not below `v`.
pub open spec fn grid_ceil(v: int) -> int {
    grid_floor(v + SCALE - 1)
}

pub open spec fn vec_min(a: Vec2, b: Vec2) -> Vec2 {
    (Vec2 {
        x: if a.x <= b.x {
            a.x
        } else {
            b.x
        },
        y: if a.y <= b.y {
            a.y
        } else {
            b.y
        },
    })
}

pub open spec fn vec_max(a: Vec2, b: Vec2) -> Vec2 {
    (Vec2 {
        x: if a.x >= b.x {
            a.x
        } else {
            b.x
        },
        y: if a.y >= b.y {
            a.y
        } else {
            b.y
        },
    })
}

/// Round `v` down to the nearest multiple of `SCALE`.
fn floor_coord(v: i64) -> (r: i64)
    requires
        -WIDE_LIMIT <= v <= WIDE_LIMIT + SCALE,
    ensures
        r == grid_floor(v as int),
{
    let shifted = v + WIDE_LIMIT;
    let m = shifted % SCALE;
    proof {
        vstd::arithmetic::div_mod::lemma_mod_multiples_vanish(
            (WIDE_LIMIT / SCALE) as int,
            v as int,
            SCALE as int,
        );
    }
    v - m
}

/// Round `v` up to the nearest multiple of `SCALE`.
fn ceil_coord(v: i64) -> (r: i64)
    requires
        -WIDE_LIMIT <= v <= WIDE_LIMIT,
    ensures
        r == grid_ceil(v as int),
{
    floor_coord(v + (SCALE - 1))
}

impl Vec2 {
    pub fn new(x: i64, y: i64) -> (r: Vec2)
        ensures
            r == (Vec2 { x, y }),
    {
        Vec2 { x, y }
    }

    /// Component-wise minimum.
    pub fn min(self, other: Vec2) -> (r: Vec2)
        ensures
            r == vec_min(self, other),
    {
        Vec2 {
            x: if self.x <= other.x {
                self.x
            } else {
                other.x
            },
            y: if self.y <= other.y {
                self.y
            } else {
                other.y
            },
        }
    }

    /// Component-wise maximum.
    pub fn max(self, other: Vec2) -> (r: Vec2)
        ensures
            r == vec_max(self, other),
    {
        Vec2 {
            x: if self.x >= other.x {
                self.x
            } else {
                other.x
            },
            y: if self.y >= other.y {
                self.y
            } else {
                other.y
            },
        }
    }

    /// Round both components down to the world grid.
    pub fn floor(self) -> (r: Vec2)
        requires
            in_wide(self),
        ensures
            r.x == grid_floor(self.x as int),
            r.y == grid_floor(self.y as int),
    {
        Vec2 { x: floor_coord(self.x), y: floor_coord(self.y) }
    }

    /// Round both components up to the world grid.
    pub fn ceil(self) -> (r: Vec2)
        requires
            in_wide(self),
        ensures
            r.x == grid_ceil(self.x as int),
            r.y == grid_ceil(self.y as int),
    {
        Vec2 { x: ceil_coord(self.x), y: ceil_coord(self.y) }
    }

    /// Squared Euclidean distance to `other`.
    pub fn distance_squared(self, other: Vec2) -> (r: i64)
        requires
            in_wide(self),
            in_wide(other),
        ensures
            r == dist_sq(self, other),
    {
        let dx = self.x - other.x;
        let dy = self.y - other.y;
        proof {
            assert(dx * dx <= 4 * WIDE_LIMIT * WIDE_LIMIT && dx * dx >= 0)
                by (nonlinear_arith)
                requires -2 * WIDE_LIMIT <= dx <= 2 * WIDE_LIMIT;
            assert(dy * dy <= 4 * WIDE_LIMIT * WIDE_LIMIT && dy * dy >= 0)
                by (nonlinear_arith)
                requires -2 * WIDE_LIMIT <= dy <= 2 * WIDE_LIMIT;
        }
        dx * dx + dy * dy
    }
}

/// Where grid rounding can land: at most `SCALE - 1` below (floor) or
/// above (ceiling) the value.
pub proof fn lemma_grid_round_bounds(v: int)
    ensures
        grid_floor(v) <= v < grid_floor(v) + SCALE,
        v <= grid_ceil(v) < v + SCALE,
{
    vstd::arithmetic::div_mod::lemma_mod_bound(v, SCALE as int);
    vstd::arithmetic::div_mod::lemma_mod_bound(v + SCALE - 1, SCALE as int);
}

/// Shifting by `WIDE_LIMIT` (a multiple of `SCALE`) shifts the quotient by
/// `WIDE_LIMIT / SCALE`: the trick that lets executable code take a floor
/// quotient of a possibly negative coordinate on non-negative machine
/// integers.
pub proof fn lemma_div_shift(v: int)
    ensures
        (v + WIDE_LIMIT) / (SCALE as int) == v / (SCALE as int) + (WIDE_LIMIT / SCALE) as int,
{
    vstd::arithmetic::div_mod::lemma_mod_multiples_vanish(
        (WIDE_LIMIT / SCALE) as int,
        v,
        SCALE as int,
    );
    vstd::arithmetic::div_mod::lemma_fundamental_div_mod(v, SCALE as int);
    vstd::arithmetic::div_mod::lemma_fundamental_div_mod(v + WIDE_LIMIT, SCALE as int);
    assert((v + WIDE_LIMIT) / (SCALE as int) == v / (SCALE as int) + (WIDE_LIMIT / SCALE) as int)
        by (nonlinear_arith)
        requires
            (SCALE as int) * ((v + WIDE_LIMIT) / (SCALE as int)) + (v + WIDE_LIMIT) % (
            SCALE as int) == v + WIDE_LIMIT,
            (SCALE as int) * (v / (SCALE as int)) + v % (SCALE as int) == v,
            (v + WIDE_LIMIT) % (SCALE as int) == v % (SCALE as int);
}

/// The world-grid cell index a fixed-point coordinate falls in: the floor
/// quotient by `SCALE`.
pub fn cell_floor(v: i64) -> (r: i64)
    requires
        -WIDE_LIMIT <= v <= WIDE_LIMIT,
    ensures
        r == (v as int) / (SCALE as int),
{
    proof {
        lemma_div_shift(v as int);
        vstd::arithmetic::div_mod::lemma_mod_bound(v as int, SCALE as int);
        vstd::arithmetic::div_mod::lemma_fundamental_div_mod(v as int, SCALE as int);
    }
    (v + WIDE_LIMIT) / SCALE - WIDE_LIMIT / SCALE
}

/// The first world-grid cell index at or after a fixed-point coordinate:
/// the ceiling quotient by `SCALE`.
pub fn cell_ceil(v: i64) -> (r: i64)
    requires
        -WIDE_LIMIT <= v <= WIDE_LIMIT,
    ensures
        r == ((v + SCALE - 1) as int) / (SCALE as int),
{
    proof {
        lemma_div_shift((v + SCALE - 1) as int);
        vstd::arithmetic::div_mod::lemma_mod_bound((v + SCALE - 1) as int, SCALE as int);
        vstd::arithmetic::div_mod::lemma_fundamental_div_mod((v + SCALE - 1) as int, SCALE as int);
    }
    (v + (SCALE - 1) + WIDE_LIMIT) / SCALE - WIDE_LIMIT / SCALE
}

/// A squared distance is never negative.
pub proof fn lemma_dist_sq_nonneg(a: Vec2, b: Vec2)
    ensures
        dist_sq(a, b) >= 0,
{
    assert(sq(a.x - b.x) >= 0) by (nonlinear_arith);
    assert(sq(a.y - b.y) >= 0) by (nonlinear_arith);
}

/// An axis-aligned rectangle given by its two extreme corners.
#[derive(Clone, Copy, Debug, Hash, PartialEq, Eq, Structural)]
pub struct Rect {
    pub min: Vec2,
    pub max: Vec2,
}

pub open spec fn rect_wf(r: Rect) -> bool {
    r.min.x <= r.max.x && r.min.y <= r.max.y
}

pub open spec fn rect_in_wide(r: Rect) -> bool {
    in_wide(r.min) && in_wide(r.max)
}

/// The rectangle of the given size centered on `center` (sizes are halved,
/// so exactness needs even fixed-point sizes).
pub open spec fn rect_from_center(center: Vec2, size: Vec2) -> Rect {
    (Rect {
        min: (Vec2 {
            x: (center.x - size.x / 2) as i64,
            y: (center.y - size.y / 2) as i64,
        }),
        max: (Vec2 {
            x: (center.x + size.x / 2) as i64,
            y: (center.y + size.y / 2) as i64,
        }),
    })
}

/// The gap metric between two rectangles: sum of the squared positive parts
/// of the per-axis separations, in both directions.  For disjoint rectangles
/// this is the squared distance between their closest points; for touching
/// or overlapping rectangles it is zero.
pub open spec fn gap_sq(a: Rect, b: Rect) -> int {
    sq(clamp_pos(a.min.x - b.max.x)) + sq(clamp_pos(a.min.y - b.max.y)) + sq(
        clamp_pos(b.min.x - a.max.x),
    ) + sq(clamp_pos(b.min.y - a.max.y))
}

pub open spec fn rect_overlaps(a: Rect, b: Rect) -> bool {
    &&& a.max.x > b.min.x
    &&& a.min.x < b.max.x
    &&& a.max.y > b.min.y
    &&& a.min.y < b.max.y
}

/// `clamp_pos` of a difference, computed on machine integers.
fn pos_gap(a: i64, b: i64) -> (r: i64)
    requires
        -WIDE_LIMIT <= a <= WIDE_LIMIT,
        -WIDE_LIMIT <= b <= WIDE_LIMIT,
    ensures
        r == clamp_pos(a - b),
        0 <= r <= 2 * WIDE_LIMIT,
{
    let d = a - b;
    if d > 0 {
        d
    } else {
        0
    }
}

impl Rect {
    /// The smallest rectangle containing the two given corners.
    pub fn from_corners(p0: Vec2, p1: Vec2) -> (r: Rect)
        ensures
            r == (Rect { min: vec_min(p0, p1), max: vec_max(p0, p1) }),
    {
        Rect { min: p0.min(p1), max: p0.max(p1) }
    }

    /// The rectangle of the given size centered on `center`.
    pub fn from_center(center: Vec2, size: Vec2) -> (r: Rect)
        requires
            in_wide(center),
            0 <= size.x <= COORD_LIMIT,
            0 <= size.y <= COORD_LIMIT,
            size.x % 2 == 0,
            size.y % 2 == 0,
        ensures
            r == rect_from_center(center, size),
    {
        let half_x = size.x / 2;
        let half_y = size.y / 2;
        Rect {
            min: Vec2 { x: center.x - half_x, y: center.y - half_y },
            max: Vec2 { x: center.x + half_x, y: center.y + half_y },
        }
    }

    /// The smallest rectangle containing every given point, or `None` when
    /// there are no points.
    pub fn bounding_points(points: &Vec<Vec2>) -> (r: Option<Rect>)
        ensures
            r.is_some() <==> points@.len() > 0,
            r.is_some() ==> r.unwrap() == bbox(points@),
    {
        if points.len() == 0 {
            return None;
        }
        let mut cur = Rect { min: points[0], max: points[0] };
        let mut i: usize = 1;
        while i < points.len()
            invariant
                1 <= i <= points@.len(),
                cur == bbox(points@.take(i as int)),
            decreases points@.len() - i,
        {
            proof {
                assert(points@.take(i + 1).drop_last() =~= points@.take(i as int));
                assert(points@.take(i + 1).last() == points@[i as int]);
            }
            cur = Rect { min: cur.min.min(points[i]), max: cur.max.max(points[i]) };
            i = i + 1;
        }
        proof {
            assert(points@.take(points@.len() as int) =~= points@);
        }
        Some(cur)
    }

    /// Whether the interiors of the two rectangles intersect.
    pub fn overlaps(&self, other: &Rect) -> (r: bool)
        ensures
            r == rect_overlaps(*self, *other),
    {
        (self.max.x > other.min.x) && (self.min.x < other.max.x) && (self.max.y > other.min.y)
            && (self.min.y < other.max.y)
    }

    /// The gap metric between `self` and `other` (see [`gap_sq`]).
    pub fn min_distance_squared(&self, other: &Rect) -> (r: i64)
        requires
            rect_in_wide(*self),
            rect_in_wide(*other),
        ensures
            r == gap_sq(*self, *other),
    {
        let ux = pos_gap(self.min.x, other.max.x);
        let uy = pos_gap(self.min.y, other.max.y);
        let vx = pos_gap(other.min.x, self.max.x);
        let vy = pos_gap(other.min.y, self.max.y);
        proof {
            assert(ux * ux >= 0 && ux * ux <= 4 * WIDE_LIMIT * WIDE_LIMIT)
                by (nonlinear_arith)
                requires 0 <= ux <= 2 * WIDE_LIMIT;
            assert(uy * uy >= 0 && uy * uy <= 4 * WIDE_LIMIT * WIDE_LIMIT)
                by (nonlinear_arith)
                requires 0 <= uy <= 2 * WIDE_LIMIT;
            assert(vx * vx >= 0 && vx * vx <= 4 * WIDE_LIMIT * WIDE_LIMIT)
                by (nonlinear_arith)
                requires 0 <= vx <= 2 * WIDE_LIMIT;
            assert(vy * vy >= 0 && vy * vy <= 4 * WIDE_LIMIT * WIDE_LIMIT)
                by (nonlinear_arith)
                requires 0 <= vy <= 2 * WIDE_LIMIT;
        }
        ux * ux + uy * uy + vx * vx + vy * vy
    }
}

/// The bounding rectangle of a non-empty point sequence, folded from the
/// first point exactly as the engine's loop computes it.
pub open spec fn bbox(points: Seq<Vec2>) -> Rect
    recommends
        points.len() > 0,
    decreases points.len(),
{
    if points.len() <= 1 {
        (Rect { min: points[0], max: points[0] })
    } else {
        let prev = bbox(points.drop_last());
        (Rect { min: vec_min(prev.min, points.last()), max: vec_max(prev.max, points.last()) })
    }
}

/// Every point of the sequence lies inside the folded bounding rectangle,
/// and each of its four edges is attained by some point.
pub proof fn lemma_bbox_bounds(points: Seq<Vec2>)
    requires
        points.len() > 0,
    ensures
        rect_wf(bbox(points)),
        forall|i: int|
            0 <= i < points.len() ==> bbox(points).min.x <= (#[trigger] points[i]).x
                <= bbox(points).max.x && bbox(points).min.y <= points[i].y <= bbox(points).max.y,
        exists|i: int| 0 <= i < points.len() && (#[trigger] points[i]).x == bbox(points).min.x,
        exists|i: int| 0 <= i < points.len() && (#[trigger] points[i]).x == bbox(points).max.x,
        exists|i: int| 0 <= i < points.len() && (#[trigger] points[i]).y == bbox(points).min.y,
        exists|i: int| 0 <= i < points.len() && (#[trigger] points[i]).y == bbox(points).max.y,
    decreases points.len(),
{
    if points.len() > 1 {
        lemma_bbox_bounds(points.drop_last());
        assert forall|i: int|
            0 <= i < points.len() implies bbox(points).min.x <= (#[trigger] points[i]).x
            <= bbox(points).max.x && bbox(points).min.y <= points[i].y
            <= bbox(points).max.y by {
            if i < points.len() - 1 {
                assert(points.drop_last()[i] == points[i]);
            }
        }
    }
}

} // verus!
