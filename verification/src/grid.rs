//! The map's placement grid: which world cells may hold a structure.
//!
//! The game API reports the grid as a one-bit-per-cell bitmap; here it is
//! unpacked into a row-major vector of cell statuses, queried in
//! fixed-point coordinates, and updated when a found entity blocks cells.

use vstd::pervasive::VecAdditionalExecFns;
use vstd::prelude::*;

use crate::geometry::{cell_ceil, cell_floor, in_wide, Rect, Vec2, COORD_LIMIT, SCALE};
use crate::webview::ImageData;

verus! {

/// First cell covered by a footprint of extent `s` centered at coordinate
/// `c`: the floored cell of the footprint's low edge.
pub open spec fn cell_span_lo(c: int, s: int) -> int {
    (c - s / 2) / (SCALE as int)
}

/// First cell past a footprint of extent `s` centered at coordinate `c`:
/// the ceiling cell of the footprint's high edge.
pub open spec fn cell_span_hi(c: int, s: int) -> int {
    (c + s / 2 + SCALE - 1) / (SCALE as int)
}

/// The status of one world cell of the placement grid.
#[derive(Clone, Copy, Debug, Hash, PartialEq, Eq, Structural)]
pub enum GridStatus {
    /// Nothing may be placed here.
    Invalid,
    /// The cell is free for placement.
    Empty,
}

impl Default for GridStatus {
    /// Cells are invalid until the map says otherwise.
    fn default() -> (s: GridStatus)
        ensures
            s == GridStatus::Invalid,
    {
        GridStatus::Invalid
    }
}

/// The bit at linear cell index `idx` of a one-bit-per-cell bitmap, most
/// significant bit of each byte first.
pub open spec fn bit_of(data: Seq<u8>, idx: int) -> bool {
    ((data[idx / 8] >> ((7 - (idx % 8)) as u8)) & 1) == 1
}

/// The cell status a bitmap bit encodes: set means free.
pub open spec fn status_of(data: Seq<u8>, idx: int) -> GridStatus {
    if bit_of(data, idx) {
        GridStatus::Empty
    } else {
        GridStatus::Invalid
    }
}

/// A row-major grid of cell statuses covering the whole map.
#[derive(Clone, Debug, PartialEq, Eq)]
pub struct PlacementGrid {
    cells: Vec<GridStatus>,
    width: usize,
    height: usize,
}

impl PlacementGrid {
    /// The grid holds one status per cell of its full rectangle.
    pub closed spec fn wf(self) -> bool {
        self.cells@.len() == self.width * self.height
    }

    pub closed spec fn spec_width(self) -> int {
        self.width as int
    }

    pub closed spec fn spec_height(self) -> int {
        self.height as int
    }

    /// The status of the cell in column `x` of row `y`.
    pub closed spec fn spec_cell(self, x: int, y: int) -> GridStatus {
        self.cells@[y * self.width + x]
    }

    pub fn width(&self) -> (w: usize)
        ensures
            w as int == self.spec_width(),
    {
        self.width
    }

    pub fn height(&self) -> (h: usize)
        ensures
            h as int == self.spec_height(),
    {
        self.height
    }

    /// Unpack the API's one-bit-per-cell bitmap into a grid.  `None` when
    /// the image does not describe exactly one bit per cell of its size.
    pub fn from_image(img: &ImageData) -> (r: Option<PlacementGrid>)
        ensures
            r.is_some() <==> img.bits_per_pixel == 1 && img.size.x >= 0 && img.size.y >= 0
                && img.data@.len() * 8 == (img.size.x as int) * (img.size.y as int),
            r.is_some() ==> {
                let g = r.unwrap();
                &&& g.wf()
                &&& g.spec_width() == img.size.x
                &&& g.spec_height() == img.size.y
                &&& forall|x: int, y: int|
                    0 <= x < img.size.x && 0 <= y < img.size.y ==> #[trigger] g.spec_cell(x, y)
                        == status_of(img.data@, y * (img.size.x as int) + x)
            },
    {
        if img.bits_per_pixel != 1 || img.size.x < 0 || img.size.y < 0 {
            return None;
        }
        let w = img.size.x as usize;
        let h = img.size.y as usize;
        proof {
            assert((w as int) * (h as int) <= 0xffffffffffffffff * 0xffffffffffffffff)
                by (nonlinear_arith)
                requires
                    0 <= (w as int) <= 0xffffffffffffffff,
                    0 <= (h as int) <= 0xffffffffffffffff;
        }
        let total_bits: u128 = (img.data.len() as u128) * 8;
        let area: u128 = (w as u128) * (h as u128);
        proof {
            assert(total_bits as int == 8 * img.data@.len());
            assert(area as int == (w as int) * (h as int));
            assert((w as int) * (h as int) == (img.size.x as int) * (img.size.y as int));
        }
        if total_bits != area {
            return None;
        }
        let mut cells: Vec<GridStatus> = Vec::new();
        let mut b: usize = 0;
        while b < img.data.len()
            invariant
                0 <= b <= img.data@.len(),
                cells@.len() == 8 * b,
                forall|idx: int| 0 <= idx < 8 * b ==> cells@[idx] == status_of(img.data@, idx),
            decreases img.data@.len() - b,
        {
            let byte = img.data[b];
            let mut t: usize = 0;
            while t < 8
                invariant
                    0 <= t <= 8,
                    0 <= b < img.data@.len(),
                    byte == img.data@[b as int],
                    cells@.len() == 8 * b + t,
                    forall|idx: int|
                        0 <= idx < 8 * b + t ==> cells@[idx] == status_of(img.data@, idx),
                decreases 8 - t,
            {
                let shift: u8 = (7 - t) as u8;
                let bit = (byte >> shift) & 1;
                let status = if bit == 0 {
                    GridStatus::Invalid
                } else {
                    GridStatus::Empty
                };
                proof {
                    let idx = 8 * b + t;
                    vstd::arithmetic::div_mod::lemma_mod_multiples_vanish(b as int, t as int, 8);
                    vstd::arithmetic::div_mod::lemma_small_mod(t as nat, 8);
                    vstd::arithmetic::div_mod::lemma_div_multiples_vanish_fancy(
                        b as int,
                        t as int,
                        8,
                    );
                    vstd::arithmetic::div_mod::lemma_basic_div(t as int, 8);
                    assert(idx / 8 == b as int);
                    assert(idx % 8 == t as int);
                    assert((byte >> shift) & 1 == 0 || (byte >> shift) & 1 == 1) by (bit_vector);
                    assert(bit == 1 <==> bit_of(img.data@, idx));
                    assert(status == status_of(img.data@, idx));
                }
                cells.push(status);
                t = t + 1;
            }
            b = b + 1;
        }
        proof {
            assert(cells@.len() == w * h);
        }
        let g = PlacementGrid { cells, width: w, height: h };
        proof {
            assert forall|x: int, y: int|
                0 <= x < img.size.x && 0 <= y < img.size.y implies #[trigger] g.spec_cell(x, y)
                == status_of(img.data@, y * (img.size.x as int) + x) by {
                assert(0 <= y * (w as int) + x < 8 * img.data@.len()) by (nonlinear_arith)
                    requires
                        0 <= x < w as int,
                        0 <= y < h as int,
                        8 * img.data@.len() == (w as int) * (h as int);
            }
        }
        Some(g)
    }

    /// Whether the cell under `point` exists and is free for placement.
    pub fn is_empty(&self, point: Vec2) -> (r: bool)
        requires
            self.wf(),
            in_wide(point),
        ensures
            r <==> {
                let cx = (point.x as int) / (SCALE as int);
                let cy = (point.y as int) / (SCALE as int);
                &&& 0 <= cx < self.spec_width()
                &&& 0 <= cy < self.spec_height()
                &&& self.spec_cell(cx, cy) == GridStatus::Empty
            },
    {
        let cx = cell_floor(point.x);
        let cy = cell_floor(point.y);
        if cx < 0 || cy < 0 {
            return false;
        }
        let cxu = cx as usize;
        let cyu = cy as usize;
        if cxu >= self.width || cyu >= self.height {
            return false;
        }
        let n = self.cells.len();
        proof {
            assert(cyu * self.width + cxu < self.cells@.len()) by (nonlinear_arith)
                requires
                    0 <= cxu < self.width,
                    0 <= cyu < self.height,
                    self.cells@.len() == self.width * self.height;
        }
        let status = self.cells[cyu * self.width + cxu];
        status == GridStatus::Empty
    }

    /// Whether the cell under `point` exists and is not marked invalid.
    /// With the two statuses in use this coincides with [`Self::is_empty`].
    pub fn is_invalid(&self, point: Vec2) -> (r: bool)
        requires
            self.wf(),
            in_wide(point),
        ensures
            r <==> {
                let cx = (point.x as int) / (SCALE as int);
                let cy = (point.y as int) / (SCALE as int);
                &&& 0 <= cx < self.spec_width()
                &&& 0 <= cy < self.spec_height()
                &&& self.spec_cell(cx, cy) != GridStatus::Invalid
            },
    {
        let cx = cell_floor(point.x);
        let cy = cell_floor(point.y);
        if cx < 0 || cy < 0 {
            return false;
        }
        let cxu = cx as usize;
        let cyu = cy as usize;
        if cxu >= self.width || cyu >= self.height {
            return false;
        }
        let n = self.cells.len();
        proof {
            assert(cyu * self.width + cxu < self.cells@.len()) by (nonlinear_arith)
                requires
                    0 <= cxu < self.width,
                    0 <= cyu < self.height,
                    self.cells@.len() == self.width * self.height;
        }
        let status = self.cells[cyu * self.width + cxu];
        !(status == GridStatus::Invalid)
    }

    /// Whether every cell of the rectangle's floored span is free: cells
    /// from the floored minimum corner up to, excluding, the floored
    /// maximum corner.
    pub fn is_area_empty(&self, rect: Rect) -> (r: bool)
        requires
            self.wf(),
            crate::geometry::rect_wf(rect),
            in_wide(rect.min),
            in_wide(rect.max),
            0 <= (rect.min.x as int) / (SCALE as int),
            0 <= (rect.min.y as int) / (SCALE as int),
            (rect.max.x as int) / (SCALE as int) <= self.spec_width(),
            (rect.max.y as int) / (SCALE as int) <= self.spec_height(),
        ensures
            r <==> forall|cx: int, cy: int|
                (rect.min.x as int) / (SCALE as int) <= cx < (rect.max.x as int) / (SCALE as int)
                    && (rect.min.y as int) / (SCALE as int) <= cy < (rect.max.y as int) / (
                SCALE as int) ==> #[trigger] self.spec_cell(cx, cy) == GridStatus::Empty,
    {
        proof {
            vstd::arithmetic::div_mod::lemma_div_is_ordered(
                rect.min.x as int,
                rect.max.x as int,
                SCALE as int,
            );
            vstd::arithmetic::div_mod::lemma_div_is_ordered(
                rect.min.y as int,
                rect.max.y as int,
                SCALE as int,
            );
        }
        let min_x = cell_floor(rect.min.x) as usize;
        let min_y = cell_floor(rect.min.y) as usize;
        let max_x = cell_floor(rect.max.x) as usize;
        let max_y = cell_floor(rect.max.y) as usize;
        let mut all_empty = true;
        let mut cy = min_y;
        while cy < max_y
            invariant
                self.wf(),
                min_x <= max_x,
                min_y <= cy <= max_y,
                max_x <= self.spec_width(),
                max_y <= self.spec_height(),
                all_empty <==> forall|x2: int, y2: int|
                    min_x <= x2 < max_x && min_y <= y2 < cy ==> #[trigger] self.spec_cell(x2, y2)
                        == GridStatus::Empty,
            decreases max_y - cy,
        {
            let mut cx = min_x;
            while cx < max_x
                invariant
                    self.wf(),
                    min_x <= cx <= max_x,
                    min_y <= cy < max_y,
                    max_x <= self.spec_width(),
                    max_y <= self.spec_height(),
                    all_empty <==> (forall|x2: int, y2: int|
                        min_x <= x2 < max_x && min_y <= y2 < cy ==> #[trigger] self.spec_cell(
                            x2,
                            y2,
                        ) == GridStatus::Empty) && (forall|x2: int|
                        min_x <= x2 < cx ==> #[trigger] self.spec_cell(x2, cy as int)
                            == GridStatus::Empty),
                decreases max_x - cx,
            {
                let n = self.cells.len();
                proof {
                    assert(cy * self.width + cx < self.cells@.len()) by (nonlinear_arith)
                        requires
                            0 <= cx < self.width,
                            0 <= cy < self.height,
                            self.cells@.len() == self.width * self.height;
                }
                let status = self.cells[cy * self.width + cx];
                proof {
                    assert(status == self.spec_cell(cx as int, cy as int));
                }
                if !(status == GridStatus::Empty) {
                    all_empty = false;
                }
                cx = cx + 1;
            }
            cy = cy + 1;
        }
        all_empty
    }

    /// Mark every cell covered by an entity's footprint, centered at
    /// `center`, as invalid for placement.  All other cells keep their
    /// status.
    pub fn mark_area_invalid(&mut self, center: Vec2, size: Vec2)
        requires
            old(self).wf(),
            crate::geometry::in_bounds(center),
            0 <= size.x <= COORD_LIMIT,
            0 <= size.y <= COORD_LIMIT,
            size.x % 2 == 0,
            size.y % 2 == 0,
            0 <= cell_span_lo(center.x as int, size.x as int),
            0 <= cell_span_lo(center.y as int, size.y as int),
            cell_span_hi(center.x as int, size.x as int) <= old(self).spec_width(),
            cell_span_hi(center.y as int, size.y as int) <= old(self).spec_height(),
        ensures
            final(self).wf(),
            final(self).spec_width() == old(self).spec_width(),
            final(self).spec_height() == old(self).spec_height(),
            forall|cx: int, cy: int|
                0 <= cx < old(self).spec_width() && 0 <= cy < old(self).spec_height()
                    ==> #[trigger] final(self).spec_cell(cx, cy) == (if cell_span_lo(
                    center.x as int,
                    size.x as int,
                ) <= cx < cell_span_hi(center.x as int, size.x as int) && cell_span_lo(
                    center.y as int,
                    size.y as int,
                ) <= cy < cell_span_hi(center.y as int, size.y as int) {
                    GridStatus::Invalid
                } else {
                    old(self).spec_cell(cx, cy)
                }),
    {
        let half_x = size.x / 2;
        let half_y = size.y / 2;
        let lo_x = cell_floor(center.x - half_x) as usize;
        let hi_x = cell_ceil(center.x + half_x) as usize;
        let lo_y = cell_floor(center.y - half_y) as usize;
        let hi_y = cell_ceil(center.y + half_y) as usize;
        proof {
            vstd::arithmetic::div_mod::lemma_div_is_ordered(
                (center.x - half_x) as int,
                (center.x + half_x + SCALE - 1) as int,
                SCALE as int,
            );
            vstd::arithmetic::div_mod::lemma_div_is_ordered(
                (center.y - half_y) as int,
                (center.y + half_y + SCALE - 1) as int,
                SCALE as int,
            );
        }
        let ghost glo_x = lo_x as int;
        let ghost ghi_x = hi_x as int;
        let ghost glo_y = lo_y as int;
        let ghost ghi_y = hi_y as int;
        let mut cy = lo_y;
        while cy < hi_y
            invariant
                self.wf(),
                self.width == old(self).width,
                self.height == old(self).height,
                glo_x == cell_span_lo(center.x as int, size.x as int),
                ghi_x == cell_span_hi(center.x as int, size.x as int),
                glo_y == cell_span_lo(center.y as int, size.y as int),
                ghi_y == cell_span_hi(center.y as int, size.y as int),
                lo_x as int == glo_x,
                hi_x as int == ghi_x,
                lo_y as int == glo_y,
                hi_y as int == ghi_y,
                0 <= glo_x,
                glo_x <= ghi_x,
                ghi_x <= self.spec_width(),
                0 <= glo_y,
                glo_y <= ghi_y,
                ghi_y <= self.spec_height(),
                lo_y <= cy <= hi_y,
                forall|x2: int, y2: int|
                    0 <= x2 < self.spec_width() && 0 <= y2 < self.spec_height()
                        ==> #[trigger] self.spec_cell(x2, y2) == (if glo_x <= x2 < ghi_x && glo_y
                        <= y2 < cy {
                        GridStatus::Invalid
                    } else {
                        old(self).spec_cell(x2, y2)
                    }),
            decreases hi_y - cy,
        {
            let mut cx = lo_x;
            while cx < hi_x
                invariant
                    self.wf(),
                    self.width == old(self).width,
                    self.height == old(self).height,
                    lo_x as int == glo_x,
                    hi_x as int == ghi_x,
                    0 <= glo_x,
                    glo_x <= ghi_x,
                    ghi_x <= self.spec_width(),
                    0 <= glo_y,
                    ghi_y <= self.spec_height(),
                    glo_y <= cy < ghi_y,
                    lo_x <= cx <= hi_x,
                    forall|x2: int, y2: int|
                        0 <= x2 < self.spec_width() && 0 <= y2 < self.spec_height()
                            ==> #[trigger] self.spec_cell(x2, y2) == (if (glo_x <= x2 < ghi_x
                            && glo_y <= y2 < cy) || (glo_x <= x2 < cx && y2 == cy) {
                            GridStatus::Invalid
                        } else {
                            old(self).spec_cell(x2, y2)
                        }),
                decreases hi_x - cx,
            {
                let n = self.cells.len();
                proof {
                    assert(cy * self.width + cx < self.cells@.len()) by (nonlinear_arith)
                        requires
                            0 <= cx < self.width,
                            0 <= cy < self.height,
                            self.cells@.len() == self.width * self.height;
                }
                let ghost prev = *self;
                self.cells.set(cy * self.width + cx, GridStatus::Invalid);
                proof {
                    assert forall|x2: int, y2: int|
                        0 <= x2 < self.spec_width() && 0 <= y2 < self.spec_height()
                            implies #[trigger] self.spec_cell(x2, y2) == (if (glo_x <= x2 < ghi_x
                            && glo_y <= y2 < cy) || (glo_x <= x2 < cx + 1 && y2 == cy) {
                            GridStatus::Invalid
                        } else {
                            old(self).spec_cell(x2, y2)
                        }) by {
                        if x2 == cx as int && y2 == cy as int {
                            assert(self.spec_cell(x2, y2) == GridStatus::Invalid);
                        } else {
                            assert(y2 * self.width + x2 != cy * self.width + cx && 0 <= y2
                                * self.width + x2 < self.cells@.len()) by (nonlinear_arith)
                                requires
                                    0 <= x2 < self.width,
                                    0 <= y2 < self.height,
                                    0 <= cx < self.width,
                                    0 <= cy < self.height,
                                    self.cells@.len() == self.width * self.height,
                                    !(x2 == cx as int && y2 == cy as int);
                            assert(self.spec_cell(x2, y2) == prev.spec_cell(x2, y2));
                        }
                    }
                }
                cx = cx + 1;
            }
            cy = cy + 1;
        }
    }
}

} // verus!
