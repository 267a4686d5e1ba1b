//! The base-site placement engine.
//!
//! One placement pass works leaves-first over the resource deposits of a
//! map snapshot:
//!
//! 1. [`cluster`] partitions the deposits into fields by proximity to a
//!    seed deposit;
//! 2. [`zones_for`] derives a keep-out rectangle and minimum clearance for
//!    every deposit of a field;
//! 3. [`best_site`] searches the grid-aligned candidate centers around a
//!    field for the valid center with the smallest summed distance to the
//!    field's deposits;
//! 4. [`register`] reconciles a chosen center against the already-built
//!    structures and records the resource linkage.

use vstd::multiset::Multiset;
use vstd::prelude::*;

use crate::entity::{BaseResource, GameEntity, GameId};
use crate::geometry::{
    clamp_pos, dist_sq, gap_sq, in_bounds, rect_from_center, sq, Rect, Vec2, COORD_LIMIT, SCALE,
    WIDE_LIMIT,
};

verus! {

/// Proximity threshold for clustering, in fixed-point units: deposits
/// within fifteen world units of a field's seed join the field.
pub const CLUSTER_THRESHOLD: i64 = 150;

/// Minimum allowed squared-gap value between a mineral patch's keep-out
/// rectangle and a structure footprint.  The value is the empirically tuned
/// world-level constant `8` carried into fixed-point coordinates (squared
/// gaps scale with `SCALE * SCALE`).
pub const MINERAL_CLEARANCE: i64 = 800;

/// Minimum allowed squared-gap value between a vespene geyser's keep-out
/// rectangle and a structure footprint; the tuned world-level constant `5`
/// in fixed-point squared-gap units.
pub const VESPENE_CLEARANCE: i64 = 500;

/// Extra margin added to the structure footprint when sizing the search
/// region: four world units on each axis.
pub const SEARCH_MARGIN: i64 = 40;

/// An existing structure within one world unit of a computed site occupies
/// it; this is that tolerance, squared, in fixed-point units.
pub const OCCUPY_TOLERANCE_SQ: i64 = 100;

/// The keep-out region of one resource deposit: a rectangle no structure
/// footprint may come near, and the minimum value of the squared-gap metric
/// between the two rectangles.
#[derive(Clone, Copy, Debug, PartialEq, Eq, Structural)]
pub struct ExclusionZone {
    pub keep_out: Rect,
    pub min_clearance: i64,
}

/// The exclusion zone derived from one deposit: its footprint rectangle
/// centered on its position, with its kind's clearance.
pub open spec fn zone_of(r: BaseResource) -> ExclusionZone {
    (ExclusionZone {
        keep_out: rect_from_center(r.spec_position(), r.spec_footprint()),
        min_clearance: r.spec_clearance() as i64,
    })
}

/// Derive the exclusion zone of every deposit of a field, in field order.
pub fn zones_for(field: &Vec<BaseResource>) -> (zones: Vec<ExclusionZone>)
    requires
        forall|i: int| 0 <= i < field@.len() ==> in_bounds((#[trigger] field@[i]).spec_position()),
    ensures
        zones@.len() == field@.len(),
        forall|i: int| 0 <= i < field@.len() ==> zones@[i] == zone_of(#[trigger] field@[i]),
{
    let mut zones: Vec<ExclusionZone> = Vec::new();
    let mut i: usize = 0;
    while i < field.len()
        invariant
            0 <= i <= field@.len(),
            zones@.len() == i,
            forall|k: int| 0 <= k < field@.len() ==> in_bounds((#[trigger] field@[k]).spec_position()),
            forall|k: int| 0 <= k < i ==> zones@[k] == zone_of(#[trigger] field@[k]),
        decreases field@.len() - i,
    {
        let r = &field[i];
        zones.push(ExclusionZone {
            keep_out: Rect::from_center(r.position(), r.footprint()),
            min_clearance: r.clearance(),
        });
        i = i + 1;
    }
    zones
}

/// Whether `r` lies within the clustering threshold `t` of `seed`
/// (compared through squared distances, so exact).
pub open spec fn close_to(seed: BaseResource, r: BaseResource, t: int) -> bool {
    dist_sq(seed.spec_position(), r.spec_position()) <= t * t
}

/// The membership predicate of the field seeded by `seed`.
pub open spec fn close_pred(seed: BaseResource, t: int) -> spec_fn(BaseResource) -> bool {
    |r: BaseResource| close_to(seed, r, t)
}

/// The complement of [`close_pred`]: deposits left for later fields.
pub open spec fn far_pred(seed: BaseResource, t: int) -> spec_fn(BaseResource) -> bool {
    |r: BaseResource| !close_to(seed, r, t)
}

/// The fields produced by seed-relative clustering: the first deposit
/// seeds a field consisting of every remaining deposit within threshold of
/// that seed (seed last, as the engine builds it), and clustering recurses
/// on the deposits left over.
pub open spec fn cluster_spec(s: Seq<BaseResource>, t: int) -> Seq<Seq<BaseResource>>
    decreases s.len(),
    via cluster_spec_decreases
{
    if s.len() == 0 {
        Seq::empty()
    } else {
        let seed = s[0];
        let rest = s.drop_first();
        let grp = rest.filter(close_pred(seed, t)).push(seed);
        let rem = rest.filter(far_pred(seed, t));
        seq![grp] + cluster_spec(rem, t)
    }
}

#[via_fn]
proof fn cluster_spec_decreases(s: Seq<BaseResource>, t: int) {
    if s.len() > 0 {
        s.drop_first().lemma_filter_len(far_pred(s[0], t));
    }
}

/// Partition the deposits into fields by proximity: repeatedly take the
/// first remaining deposit as a seed, pull every remaining deposit within
/// `threshold` of that seed into the seed's field, and continue with the
/// rest.
pub fn cluster(resources: Vec<BaseResource>, threshold: i64) -> (fields: Vec<Vec<BaseResource>>)
    requires
        0 <= threshold <= COORD_LIMIT,
        forall|i: int|
            0 <= i < resources@.len() ==> in_bounds((#[trigger] resources@[i]).spec_position()),
    ensures
        fields@.map_values(|f: Vec<BaseResource>| f@) == cluster_spec(
            resources@,
            threshold as int,
        ),
{
    let ghost t = threshold as int;
    let mut pool = resources;
    let mut fields: Vec<Vec<BaseResource>> = Vec::new();
    proof {
        assert(fields@.map_values(|f: Vec<BaseResource>| f@) =~= Seq::<Seq<BaseResource>>::empty());
        assert(Seq::<Seq<BaseResource>>::empty() + cluster_spec(pool@, t) =~= cluster_spec(
            pool@,
            t,
        ));
    }
    while pool.len() > 0
        invariant
            0 <= threshold <= COORD_LIMIT,
            t == threshold as int,
            forall|i: int|
                0 <= i < pool@.len() ==> in_bounds((#[trigger] pool@[i]).spec_position()),
            fields@.map_values(|f: Vec<BaseResource>| f@) + cluster_spec(pool@, t) == cluster_spec(
                resources@,
                t,
            ),
        decreases pool@.len(),
    {
        let ghost old_pool = pool@;
        let ghost old_fields = fields@;
        let seed = pool[0];
        let mut group: Vec<BaseResource> = Vec::new();
        let mut remaining: Vec<BaseResource> = Vec::new();
        let mut j: usize = 1;
        proof {
            assert(old_pool.subrange(1, 1) =~= Seq::<BaseResource>::empty());
            assert(group@ =~= old_pool.subrange(1, 1).filter(close_pred(seed, t))) by {
                old_pool.subrange(1, 1).lemma_filter_len(close_pred(seed, t));
            }
            assert(remaining@ =~= old_pool.subrange(1, 1).filter(far_pred(seed, t))) by {
                old_pool.subrange(1, 1).lemma_filter_len(far_pred(seed, t));
            }
        }
        while j < pool.len()
            invariant
                1 <= j <= pool@.len(),
                pool@.len() >= 1,
                seed == pool@[0],
                0 <= threshold <= COORD_LIMIT,
                t == threshold as int,
                forall|i: int|
                    0 <= i < pool@.len() ==> in_bounds((#[trigger] pool@[i]).spec_position()),
                group@ == pool@.subrange(1, j as int).filter(close_pred(seed, t)),
                remaining@ == pool@.subrange(1, j as int).filter(far_pred(seed, t)),
                forall|i: int|
                    0 <= i < remaining@.len() ==> in_bounds(
                        (#[trigger] remaining@[i]).spec_position(),
                    ),
            decreases pool@.len() - j,
        {
            let r = pool[j];
            proof {
                let prefix = pool@.subrange(1, j as int);
                assert(pool@.subrange(1, j + 1) =~= prefix.push(r));
                prefix.lemma_filter_push(r, close_pred(seed, t));
                prefix.lemma_filter_push(r, far_pred(seed, t));
                assert(threshold * threshold <= COORD_LIMIT * COORD_LIMIT) by (nonlinear_arith)
                    requires 0 <= threshold <= COORD_LIMIT;
            }
            if seed.position().distance_squared(r.position()) <= threshold * threshold {
                group.push(r);
            } else {
                remaining.push(r);
            }
            j = j + 1;
        }
        proof {
            assert(pool@.subrange(1, pool@.len() as int) =~= pool@.drop_first());
        }
        group.push(seed);
        fields.push(group);
        pool = remaining;
        proof {
            let fields_view = |f: Vec<BaseResource>| f@;
            let grp = old_pool.drop_first().filter(close_pred(seed, t)).push(seed);
            assert(cluster_spec(old_pool, t) == seq![grp] + cluster_spec(pool@, t));
            assert(fields@.map_values(fields_view) =~= old_fields.map_values(fields_view).push(
                grp,
            ));
            assert(old_fields.map_values(fields_view).push(grp) + cluster_spec(pool@, t)
                =~= old_fields.map_values(fields_view) + (seq![grp] + cluster_spec(pool@, t)));
        }
    }
    proof {
        assert(cluster_spec(pool@, t) =~= Seq::<Seq<BaseResource>>::empty());
        assert(fields@.map_values(|f: Vec<BaseResource>| f@) + Seq::<Seq<BaseResource>>::empty()
            =~= fields@.map_values(|f: Vec<BaseResource>| f@));
    }
    fields
}

/// Squared scale applied to squared distances before taking the integer
/// square root in the scoring metric, so that a scored distance carries
/// twenty binary digits below the fixed-point unit.  This value is `2^40`.
pub const DIST_PRECISION_SQ: u128 = 1099511627776;

/// Upper bound on a single scored distance; any sum of `usize::MAX` such
/// terms still fits in `u128`.
pub const SCORE_TERM_BOUND: u128 = 2000000000000000;

/// The positions of a field's deposits, in field order.
pub open spec fn field_positions(field: Seq<BaseResource>) -> Seq<Vec2> {
    field.map_values(|r: BaseResource| r.spec_position())
}

/// The score of a candidate center: the sum over the field's deposits of
/// the floor of the finely rescaled Euclidean distance from the candidate
/// to the deposit.  Minimizing this sum minimizes the mean distance, since
/// a field's size is fixed.
pub open spec fn score_of(p: Vec2, field: Seq<BaseResource>) -> int
    decreases field.len(),
{
    if field.len() == 0 {
        0
    } else {
        score_of(p, field.drop_last()) + crate::math::sqrt_floor(
            DIST_PRECISION_SQ * dist_sq(p, field.last().spec_position()),
        )
    }
}

/// The center-candidate rectangle of a field: the bounding box of the
/// deposit positions, grown on every side by half the structure footprint
/// plus half the search margin, rounded outward to the world grid, and then
/// shrunk back by half the footprint so that a structure centered inside it
/// stays inside the rounded region.
pub open spec fn search_rect(field: Seq<BaseResource>, fp: Vec2) -> Rect
    recommends
        field.len() > 0,
{
    let bb = crate::geometry::bbox(field_positions(field));
    (Rect {
        min: (Vec2 {
            x: (crate::geometry::grid_floor(bb.min.x - fp.x / 2 - SEARCH_MARGIN / 2) + fp.x
                / 2) as i64,
            y: (crate::geometry::grid_floor(bb.min.y - fp.y / 2 - SEARCH_MARGIN / 2) + fp.y
                / 2) as i64,
        }),
        max: (Vec2 {
            x: (crate::geometry::grid_ceil(bb.max.x + fp.x / 2 + SEARCH_MARGIN / 2) - fp.x
                / 2) as i64,
            y: (crate::geometry::grid_ceil(bb.max.y + fp.y / 2 + SEARCH_MARGIN / 2) - fp.y
                / 2) as i64,
        }),
    })
}

/// How many grid-aligned candidate abscissas the search enumerates.
pub open spec fn cand_count_x(field: Seq<BaseResource>, fp: Vec2) -> int {
    if field.len() == 0 {
        0
    } else {
        let sr = search_rect(field, fp);
        if sr.max.x < sr.min.x {
            0
        } else {
            (sr.max.x - sr.min.x) / (SCALE as int) + 1
        }
    }
}

/// How many grid-aligned candidate ordinates the search enumerates.
pub open spec fn cand_count_y(field: Seq<BaseResource>, fp: Vec2) -> int {
    if field.len() == 0 {
        0
    } else {
        let sr = search_rect(field, fp);
        if sr.max.y < sr.min.y {
            0
        } else {
            (sr.max.y - sr.min.y) / (SCALE as int) + 1
        }
    }
}

/// The candidate center with grid indices `(i, j)` inside the search
/// rectangle.
pub open spec fn cand_at(field: Seq<BaseResource>, fp: Vec2, i: int, j: int) -> Vec2 {
    let sr = search_rect(field, fp);
    (Vec2 { x: (sr.min.x + SCALE * i) as i64, y: (sr.min.y + SCALE * j) as i64 })
}

/// A structure footprint centered at `p` keeps every deposit's minimum
/// clearance in the squared-gap metric.
pub open spec fn cand_clear(p: Vec2, fp: Vec2, field: Seq<BaseResource>) -> bool {
    forall|k: int|
        0 <= k < field.len() ==> gap_sq(
            zone_of(#[trigger] field[k]).keep_out,
            rect_from_center(p, fp),
        ) >= zone_of(field[k]).min_clearance
}

/// Candidate indices `(i, j)` are inside the enumerated grid and their
/// center clears every exclusion zone.
pub open spec fn valid_cand(field: Seq<BaseResource>, fp: Vec2, i: int, j: int) -> bool {
    &&& 0 <= i < cand_count_x(field, fp)
    &&& 0 <= j < cand_count_y(field, fp)
    &&& cand_clear(cand_at(field, fp, i, j), fp, field)
}

/// Strict x-major enumeration order on candidate indices.
pub open spec fn lex_lt(i1: int, j1: int, i2: int, j2: int) -> bool {
    i1 < i2 || (i1 == i2 && j1 < j2)
}

/// Non-strict x-major enumeration order on candidate indices.
pub open spec fn lex_le(i1: int, j1: int, i2: int, j2: int) -> bool {
    i1 < i2 || (i1 == i2 && j1 <= j2)
}

/// `p`, at candidate indices `(i, j)`, is the site the search must select:
/// a valid candidate whose score no valid candidate beats, and the first
/// one in enumeration order among those that tie.
pub open spec fn is_best_site(field: Seq<BaseResource>, fp: Vec2, p: Vec2, i: int, j: int) -> bool {
    &&& valid_cand(field, fp, i, j)
    &&& p == cand_at(field, fp, i, j)
    &&& forall|i2: int, j2: int|
        #[trigger] valid_cand(field, fp, i2, j2) ==> score_of(p, field) <= score_of(
            cand_at(field, fp, i2, j2),
            field,
        )
    &&& forall|i2: int, j2: int|
        #[trigger] valid_cand(field, fp, i2, j2) && score_of(cand_at(field, fp, i2, j2), field)
            == score_of(p, field) ==> lex_le(i, j, i2, j2)
}

/// What the search knows after scanning every candidate that precedes
/// indices `(i, j)` in enumeration order.
spec fn search_inv(
    field: Seq<BaseResource>,
    fp: Vec2,
    best: Option<Vec2>,
    best_score: u128,
    bi: int,
    bj: int,
    i: int,
    j: int,
) -> bool {
    match best {
        Option::None => forall|i2: int, j2: int|
            #[trigger] valid_cand(field, fp, i2, j2) ==> !lex_lt(i2, j2, i, j),
        Option::Some(p) => {
            &&& valid_cand(field, fp, bi, bj)
            &&& lex_lt(bi, bj, i, j)
            &&& p == cand_at(field, fp, bi, bj)
            &&& best_score as int == score_of(p, field)
            &&& forall|i2: int, j2: int|
                #[trigger] valid_cand(field, fp, i2, j2) && lex_lt(i2, j2, i, j)
                    ==> best_score as int <= score_of(cand_at(field, fp, i2, j2), field)
            &&& forall|i2: int, j2: int|
                #[trigger] valid_cand(field, fp, i2, j2) && lex_lt(i2, j2, i, j) && score_of(
                    cand_at(field, fp, i2, j2),
                    field,
                ) == best_score as int ==> lex_le(bi, bj, i2, j2)
        },
    }
}

/// Score a candidate center against every deposit of the field.
fn site_score(p: Vec2, field: &Vec<BaseResource>) -> (s: u128)
    requires
        crate::geometry::in_wide(p),
        forall|i: int| 0 <= i < field@.len() ==> in_bounds((#[trigger] field@[i]).spec_position()),
    ensures
        s as int == score_of(p, field@),
{
    let mut s: u128 = 0;
    let mut i: usize = 0;
    proof {
        assert(field@.take(0) =~= Seq::<BaseResource>::empty());
    }
    while i < field.len()
        invariant
            0 <= i <= field@.len(),
            crate::geometry::in_wide(p),
            forall|k: int|
                0 <= k < field@.len() ==> in_bounds((#[trigger] field@[k]).spec_position()),
            s as int == score_of(p, field@.take(i as int)),
            s as int <= i * (SCORE_TERM_BOUND as int),
        decreases field@.len() - i,
    {
        let q = field[i].position();
        let d = p.distance_squared(q);
        proof {
            crate::geometry::lemma_dist_sq_nonneg(p, q);
        }
        proof {
            assert(dist_sq(p, q) <= 8 * (WIDE_LIMIT as int) * (WIDE_LIMIT as int))
                by (nonlinear_arith)
                requires
                    -2 * WIDE_LIMIT <= p.x - q.x <= 2 * WIDE_LIMIT,
                    -2 * WIDE_LIMIT <= p.y - q.y <= 2 * WIDE_LIMIT,
                    dist_sq(p, q) == (p.x - q.x) * (p.x - q.x) + (p.y - q.y) * (p.y - q.y);
            assert((d as u128) * DIST_PRECISION_SQ < crate::math::ISQRT_DOMAIN)
                by (nonlinear_arith)
                requires 0 <= d as int <= 8 * (WIDE_LIMIT as int) * (WIDE_LIMIT as int);
        }
        let x: u128 = (d as u128) * DIST_PRECISION_SQ;
        let term = crate::math::isqrt(x);
        proof {
            crate::math::lemma_sqrt_floor_bound(x as int, SCORE_TERM_BOUND as int - 1);
            assert((x as int) < (SCORE_TERM_BOUND as int) * (SCORE_TERM_BOUND as int))
                by (nonlinear_arith)
                requires
                    (x as int) == (d as int) * (DIST_PRECISION_SQ as int),
                    0 <= (d as int) <= 8 * (WIDE_LIMIT as int) * (WIDE_LIMIT as int);
            assert(field@.take(i + 1).drop_last() =~= field@.take(i as int));
            assert(field@.take(i + 1).last() == field@[i as int]);
        }
        s = s + term as u128;
        i = i + 1;
    }
    proof {
        assert(field@.take(field@.len() as int) =~= field@);
    }
    s
}

/// Find the best placement center for a field of deposits.
///
/// The search enumerates every grid-aligned candidate center inside the
/// field's search rectangle in x-major order, discards candidates whose
/// hypothetical footprint violates a deposit's exclusion zone, and keeps
/// the first candidate with the smallest summed scored distance to the
/// deposits.  `None` means the field is empty or packed too tightly to
/// leave any valid candidate — a normal outcome, not an error.
pub fn best_site(field: &Vec<BaseResource>, structure_footprint: Vec2) -> (r: Option<Vec2>)
    requires
        forall|i: int| 0 <= i < field@.len() ==> in_bounds((#[trigger] field@[i]).spec_position()),
        0 <= structure_footprint.x <= COORD_LIMIT,
        0 <= structure_footprint.y <= COORD_LIMIT,
        structure_footprint.x % 2 == 0,
        structure_footprint.y % 2 == 0,
    ensures
        r.is_none() ==> forall|i: int, j: int|
            !#[trigger] valid_cand(field@, structure_footprint, i, j),
        r.is_some() ==> exists|i: int, j: int|
            is_best_site(field@, structure_footprint, r.unwrap(), i, j),
        r.is_some() ==> crate::geometry::in_wide(r.unwrap()),
{
    let ghost fseq = field@;
    let ghost fp = structure_footprint;
    if field.len() == 0 {
        return None;
    }
    // Collect the deposit positions.
    let mut positions: Vec<Vec2> = Vec::new();
    let mut idx: usize = 0;
    let ghost posfn = |r: BaseResource| r.spec_position();
    proof {
        assert(fseq.take(0).map_values(posfn) =~= Seq::<Vec2>::empty());
    }
    while idx < field.len()
        invariant
            0 <= idx <= fseq.len(),
            field@ == fseq,
            posfn == (|r: BaseResource| r.spec_position()),
            forall|k: int| 0 <= k < fseq.len() ==> in_bounds((#[trigger] fseq[k]).spec_position()),
            positions@ == fseq.take(idx as int).map_values(posfn),
        decreases fseq.len() - idx,
    {
        proof {
            assert(fseq.take(idx + 1).map_values(posfn) =~= fseq.take(idx as int).map_values(
                posfn,
            ).push(fseq[idx as int].spec_position()));
        }
        let p = field[idx].position();
        positions.push(p);
        idx = idx + 1;
    }
    proof {
        assert(fseq.take(fseq.len() as int) =~= fseq);
        assert(positions@ == field_positions(fseq));
        assert forall|k: int| 0 <= k < positions@.len() implies in_bounds(
            #[trigger] positions@[k],
        ) by {
            assert(positions@[k] == fseq[k].spec_position());
        }
    }

    // The bounding box of the positions, expanded by half the footprint
    // plus half the margin, rounded outward to the grid, then shrunk by
    // half the footprint: the center-candidate rectangle.
    let bb = Rect::bounding_points(&positions).unwrap();
    proof {
        crate::geometry::lemma_bbox_bounds(positions@);
        let imin = choose|i: int|
            0 <= i < positions@.len() && (#[trigger] positions@[i]).x == bb.min.x;
        assert(in_bounds(positions@[imin]));
        let imax = choose|i: int|
            0 <= i < positions@.len() && (#[trigger] positions@[i]).x == bb.max.x;
        assert(in_bounds(positions@[imax]));
        let jmin = choose|i: int|
            0 <= i < positions@.len() && (#[trigger] positions@[i]).y == bb.min.y;
        assert(in_bounds(positions@[jmin]));
        let jmax = choose|i: int|
            0 <= i < positions@.len() && (#[trigger] positions@[i]).y == bb.max.y;
        assert(in_bounds(positions@[jmax]));
    }
    let half_x = structure_footprint.x / 2;
    let half_y = structure_footprint.y / 2;
    let margin_half = SEARCH_MARGIN / 2;
    let emin = Vec2::new(bb.min.x - half_x - margin_half, bb.min.y - half_y - margin_half);
    let emax = Vec2::new(bb.max.x + half_x + margin_half, bb.max.y + half_y + margin_half);
    let dmin = emin.floor();
    let dmax = emax.ceil();
    let cmin = Vec2::new(dmin.x + half_x, dmin.y + half_y);
    let cmax = Vec2::new(dmax.x - half_x, dmax.y - half_y);
    let ghost sr = search_rect(fseq, fp);
    proof {
        crate::geometry::lemma_grid_round_bounds(emin.x as int);
        crate::geometry::lemma_grid_round_bounds(emin.y as int);
        crate::geometry::lemma_grid_round_bounds(emax.x as int);
        crate::geometry::lemma_grid_round_bounds(emax.y as int);
        assert(cmin == sr.min);
        assert(cmax == sr.max);
        assert(-2 * COORD_LIMIT <= cmin.x && cmax.x <= 2 * COORD_LIMIT);
        assert(-2 * COORD_LIMIT <= cmin.y && cmax.y <= 2 * COORD_LIMIT);
    }
    let nx_i: i64 = if cmax.x < cmin.x {
        0
    } else {
        (cmax.x - cmin.x) / SCALE + 1
    };
    let ny_i: i64 = if cmax.y < cmin.y {
        0
    } else {
        (cmax.y - cmin.y) / SCALE + 1
    };
    proof {
        if cmax.x >= cmin.x {
            vstd::arithmetic::div_mod::lemma_fundamental_div_mod(
                cmax.x - cmin.x as int,
                SCALE as int,
            );
            vstd::arithmetic::div_mod::lemma_mod_bound(cmax.x - cmin.x as int, SCALE as int);
        }
        if cmax.y >= cmin.y {
            vstd::arithmetic::div_mod::lemma_fundamental_div_mod(
                cmax.y - cmin.y as int,
                SCALE as int,
            );
            vstd::arithmetic::div_mod::lemma_mod_bound(cmax.y - cmin.y as int, SCALE as int);
        }
        assert(nx_i as int == cand_count_x(fseq, fp));
        assert(ny_i as int == cand_count_y(fseq, fp));
    }
    let nx: usize = nx_i as usize;
    let ny: usize = ny_i as usize;

    let zones = zones_for(field);
    let mut best: Option<Vec2> = None;
    let mut best_score: u128 = 0;
    let ghost mut bi: int = 0;
    let ghost mut bj: int = 0;

    let mut i: usize = 0;
    while i < nx
        invariant
            field@ == fseq,
            fp == structure_footprint,
            forall|k: int| 0 <= k < fseq.len() ==> in_bounds((#[trigger] fseq[k]).spec_position()),
            0 <= fp.x <= COORD_LIMIT,
            0 <= fp.y <= COORD_LIMIT,
            fp.x % 2 == 0,
            fp.y % 2 == 0,
            sr == search_rect(fseq, fp),
            cmin == sr.min,
            cmax == sr.max,
            -2 * COORD_LIMIT <= cmin.x && cmax.x <= 2 * COORD_LIMIT,
            -2 * COORD_LIMIT <= cmin.y && cmax.y <= 2 * COORD_LIMIT,
            nx as int == cand_count_x(fseq, fp),
            ny as int == cand_count_y(fseq, fp),
            nx as int >= 1 ==> cmin.x + SCALE * (nx - 1) <= cmax.x,
            ny as int >= 1 ==> cmin.y + SCALE * (ny - 1) <= cmax.y,
            zones@.len() == fseq.len(),
            forall|k: int| 0 <= k < fseq.len() ==> zones@[k] == zone_of(#[trigger] fseq[k]),
            0 <= i <= nx,
            search_inv(fseq, fp, best, best_score, bi, bj, i as int, 0),
            best.is_some() ==> crate::geometry::in_wide(best.unwrap()),
        decreases nx - i,
    {
        let x = cmin.x + SCALE * (i as i64);
        let mut j: usize = 0;
        while j < ny
            invariant
                field@ == fseq,
                fp == structure_footprint,
                forall|k: int|
                    0 <= k < fseq.len() ==> in_bounds((#[trigger] fseq[k]).spec_position()),
                0 <= fp.x <= COORD_LIMIT,
                0 <= fp.y <= COORD_LIMIT,
                fp.x % 2 == 0,
                fp.y % 2 == 0,
                sr == search_rect(fseq, fp),
                cmin == sr.min,
                cmax == sr.max,
                -2 * COORD_LIMIT <= cmin.x && cmax.x <= 2 * COORD_LIMIT,
                -2 * COORD_LIMIT <= cmin.y && cmax.y <= 2 * COORD_LIMIT,
                nx as int == cand_count_x(fseq, fp),
                ny as int == cand_count_y(fseq, fp),
                nx as int >= 1 ==> cmin.x + SCALE * (nx - 1) <= cmax.x,
                ny as int >= 1 ==> cmin.y + SCALE * (ny - 1) <= cmax.y,
                zones@.len() == fseq.len(),
                forall|k: int| 0 <= k < fseq.len() ==> zones@[k] == zone_of(#[trigger] fseq[k]),
                0 <= i < nx,
                x == cmin.x + SCALE * (i as int),
                0 <= j <= ny,
                search_inv(fseq, fp, best, best_score, bi, bj, i as int, j as int),
                best.is_some() ==> crate::geometry::in_wide(best.unwrap()),
            decreases ny - j,
        {
            let y = cmin.y + SCALE * (j as i64);
            let p = Vec2 { x, y };
            proof {
                assert(p == cand_at(fseq, fp, i as int, j as int));
                assert(crate::geometry::in_wide(p));
            }
            let pbox = Rect::from_center(p, structure_footprint);

            // Test the candidate footprint against every exclusion zone.
            let mut ok = true;
            let mut k: usize = 0;
            while k < zones.len()
                invariant
                    field@ == fseq,
                    fp == structure_footprint,
                    forall|k2: int|
                        0 <= k2 < fseq.len() ==> in_bounds((#[trigger] fseq[k2]).spec_position()),
                    zones@.len() == fseq.len(),
                    forall|k2: int|
                        0 <= k2 < fseq.len() ==> zones@[k2] == zone_of(#[trigger] fseq[k2]),
                    crate::geometry::in_wide(p),
                    pbox == rect_from_center(p, fp),
                    crate::geometry::rect_in_wide(pbox),
                    0 <= fp.x <= COORD_LIMIT,
                    0 <= fp.y <= COORD_LIMIT,
                    0 <= k <= fseq.len(),
                    ok <==> (forall|k2: int|
                        0 <= k2 < k ==> gap_sq(
                            zone_of(#[trigger] fseq[k2]).keep_out,
                            rect_from_center(p, fp),
                        ) >= zone_of(fseq[k2]).min_clearance),
                decreases zones@.len() - k,
            {
                let z = zones[k];
                proof {
                    assert(z == zone_of(fseq[k as int]));
                    assert(crate::geometry::rect_in_wide(z.keep_out));
                }
                let g = z.keep_out.min_distance_squared(&pbox);
                if g < z.min_clearance {
                    proof {
                        assert(!(gap_sq(zone_of(fseq[k as int]).keep_out, rect_from_center(p, fp))
                            >= zone_of(fseq[k as int]).min_clearance));
                    }
                    ok = false;
                }
                k = k + 1;
            }
            proof {
                assert(ok <==> cand_clear(p, fp, fseq));
                assert(valid_cand(fseq, fp, i as int, j as int) <==> ok);
            }

            if ok {
                let s = site_score(p, field);
                let take = match best {
                    Option::None => true,
                    Option::Some(_) => s < best_score,
                };
                let ghost old_best = best;
                let ghost old_score = best_score;
                let ghost old_bi = bi;
                let ghost old_bj = bj;
                if take {
                    best = Some(p);
                    best_score = s;
                    proof {
                        bi = i as int;
                        bj = j as int;
                    }
                }
                proof {
                    lemma_search_step(
                        fseq,
                        fp,
                        old_best,
                        old_score,
                        old_bi,
                        old_bj,
                        best,
                        best_score,
                        bi,
                        bj,
                        i as int,
                        j as int,
                    );
                }
            } else {
                proof {
                    assert forall|i2: int, j2: int|
                        #[trigger] valid_cand(fseq, fp, i2, j2) && lex_lt(
                            i2,
                            j2,
                            i as int,
                            j + 1,
                        ) implies lex_lt(i2, j2, i as int, j as int) by {
                        if !lex_lt(i2, j2, i as int, j as int) {
                            assert(i2 == i as int && j2 == j as int);
                            assert(!valid_cand(fseq, fp, i2, j2));
                        }
                    }
                    assert(search_inv(fseq, fp, best, best_score, bi, bj, i as int, j + 1));
                }
            }
            j = j + 1;
        }
        proof {
            assert forall|i2: int, j2: int|
                #[trigger] valid_cand(fseq, fp, i2, j2) && lex_lt(i2, j2, i + 1, 0) implies lex_lt(
                i2,
                j2,
                i as int,
                ny as int,
            ) by {
                assert(0 <= j2 < cand_count_y(fseq, fp));
            }
            assert(search_inv(fseq, fp, best, best_score, bi, bj, i + 1, 0));
        }
        i = i + 1;
    }
    proof {
        match best {
            Option::None => {
                assert forall|i2: int, j2: int| !#[trigger] valid_cand(fseq, fp, i2, j2) by {
                    if valid_cand(fseq, fp, i2, j2) {
                        assert(lex_lt(i2, j2, nx as int, 0));
                    }
                }
            },
            Option::Some(p) => {
                assert forall|i2: int, j2: int|
                    #[trigger] valid_cand(fseq, fp, i2, j2) implies lex_lt(
                    i2,
                    j2,
                    nx as int,
                    0,
                ) by {}
                assert(is_best_site(fseq, fp, p, bi, bj));
            },
        }
    }
    best
}

/// One enumeration step of the grid search keeps the search invariant.
proof fn lemma_search_step(
    field: Seq<BaseResource>,
    fp: Vec2,
    old_best: Option<Vec2>,
    old_score: u128,
    old_bi: int,
    old_bj: int,
    best: Option<Vec2>,
    best_score: u128,
    bi: int,
    bj: int,
    i: int,
    j: int,
)
    requires
        search_inv(field, fp, old_best, old_score, old_bi, old_bj, i, j),
        valid_cand(field, fp, i, j),
        0 <= i && 0 <= j,
        ({
            let s = score_of(cand_at(field, fp, i, j), field);
            if old_best.is_none() || s < old_score as int {
                best == Some(cand_at(field, fp, i, j)) && best_score as int == s && bi == i && bj
                    == j
            } else {
                best == old_best && best_score == old_score && bi == old_bi && bj == old_bj
            }
        }),
    ensures
        search_inv(field, fp, best, best_score, bi, bj, i, j + 1),
{
    let s = score_of(cand_at(field, fp, i, j), field);
    assert forall|i2: int, j2: int|
        #[trigger] valid_cand(field, fp, i2, j2) && lex_lt(i2, j2, i, j + 1) && !lex_lt(
            i2,
            j2,
            i,
            j,
        ) implies i2 == i && j2 == j by {}
    if old_best.is_none() || s < old_score as int {
        assert(best == Some(cand_at(field, fp, i, j)));
        assert(lex_lt(bi, bj, i, j + 1));
        assert forall|i2: int, j2: int|
            #[trigger] valid_cand(field, fp, i2, j2) && lex_lt(i2, j2, i, j + 1) implies
            best_score as int <= score_of(cand_at(field, fp, i2, j2), field) by {
            if lex_lt(i2, j2, i, j) {
                assert(old_best.is_some());
            }
        }
        assert forall|i2: int, j2: int|
            #[trigger] valid_cand(field, fp, i2, j2) && lex_lt(i2, j2, i, j + 1) && score_of(
                cand_at(field, fp, i2, j2),
                field,
            ) == best_score as int implies lex_le(bi, bj, i2, j2) by {
            if lex_lt(i2, j2, i, j) {
                assert(old_best.is_some());
                assert(old_score as int <= score_of(cand_at(field, fp, i2, j2), field));
            }
        }
    } else {
        assert forall|i2: int, j2: int|
            #[trigger] valid_cand(field, fp, i2, j2) && lex_lt(i2, j2, i, j + 1) implies
            best_score as int <= score_of(cand_at(field, fp, i2, j2), field) by {}
        assert forall|i2: int, j2: int|
            #[trigger] valid_cand(field, fp, i2, j2) && lex_lt(i2, j2, i, j + 1) && score_of(
                cand_at(field, fp, i2, j2),
                field,
            ) == best_score as int implies lex_le(bi, bj, i2, j2) by {}
    }
}

/// The placement record for one field: the chosen center, whether an
/// existing structure already occupies it, and the deposits it harvests.
/// Records are recreated from scratch every pass; callers must not assume
/// identity across passes.
#[derive(Clone, Debug, PartialEq, Eq)]
pub struct BaseSite {
    pub position: Vec2,
    pub occupied: bool,
    pub occupying_structure: Option<GameId>,
    pub linked_resources: Vec<GameId>,
}

/// Whether a structure at `structure_pos` occupies a site at `site_pos`:
/// strictly within one world unit of it.
pub open spec fn occupies(structure_pos: Vec2, site_pos: Vec2) -> bool {
    dist_sq(structure_pos, site_pos) < OCCUPY_TOLERANCE_SQ
}

/// Reconcile a computed site center against the already-built structures:
/// the first structure within the positional tolerance occupies the site;
/// with none, the site is unoccupied.  The site links every deposit of the
/// field, in field order.
pub fn register(
    site_position: Vec2,
    field: &Vec<BaseResource>,
    existing_structures: &Vec<(GameId, Vec2)>,
) -> (site: BaseSite)
    requires
        crate::geometry::in_wide(site_position),
        forall|i: int|
            0 <= i < existing_structures@.len() ==> in_bounds(
                (#[trigger] existing_structures@[i]).1,
            ),
    ensures
        site.position == site_position,
        site.linked_resources@ == field@.map_values(|r: BaseResource| r.spec_entity()),
        site.occupied <==> exists|j: int|
            0 <= j < existing_structures@.len() && occupies(
                (#[trigger] existing_structures@[j]).1,
                site_position,
            ),
        site.occupied ==> exists|j: int|
            {
                &&& 0 <= j < existing_structures@.len()
                &&& occupies((#[trigger] existing_structures@[j]).1, site_position)
                &&& site.occupying_structure == Some(existing_structures@[j].0)
                &&& forall|k: int|
                    0 <= k < j ==> !occupies(
                        (#[trigger] existing_structures@[k]).1,
                        site_position,
                    )
            },
        !site.occupied ==> site.occupying_structure.is_none(),
{
    let mut found: Option<GameId> = None;
    let ghost mut found_at: int = 0;
    let mut i: usize = 0;
    while i < existing_structures.len()
        invariant
            0 <= i <= existing_structures@.len(),
            crate::geometry::in_wide(site_position),
            forall|k: int|
                0 <= k < existing_structures@.len() ==> in_bounds(
                    (#[trigger] existing_structures@[k]).1,
                ),
            match found {
                Option::None => forall|k: int|
                    0 <= k < i ==> !occupies(
                        (#[trigger] existing_structures@[k]).1,
                        site_position,
                    ),
                Option::Some(g) => {
                    &&& 0 <= found_at < i
                    &&& occupies(existing_structures@[found_at].1, site_position)
                    &&& g == existing_structures@[found_at].0
                    &&& forall|k: int|
                        0 <= k < found_at ==> !occupies(
                            (#[trigger] existing_structures@[k]).1,
                            site_position,
                        )
                },
            },
        decreases existing_structures@.len() - i,
    {
        if found.is_none() {
            let (handle, pos) = existing_structures[i];
            if pos.distance_squared(site_position) < OCCUPY_TOLERANCE_SQ {
                found = Some(handle);
                proof {
                    found_at = i as int;
                }
            }
        }
        i = i + 1;
    }

    let mut linked: Vec<GameId> = Vec::new();
    let mut n: usize = 0;
    let ghost idfn = |r: BaseResource| r.spec_entity();
    proof {
        assert(field@.take(0).map_values(idfn) =~= Seq::<GameId>::empty());
    }
    while n < field.len()
        invariant
            0 <= n <= field@.len(),
            idfn == (|r: BaseResource| r.spec_entity()),
            linked@ == field@.take(n as int).map_values(idfn),
        decreases field@.len() - n,
    {
        proof {
            assert(field@.take(n + 1).map_values(idfn) =~= field@.take(n as int).map_values(
                idfn,
            ).push(field@[n as int].spec_entity()));
        }
        linked.push(field[n].entity());
        n = n + 1;
    }
    proof {
        assert(field@.take(field@.len() as int) =~= field@);
    }

    let occupied = found.is_some();
    BaseSite { position: site_position, occupied, occupying_structure: found, linked_resources: linked }
}

/// Law: a selected site keeps every deposit's minimum clearance — its
/// footprint rectangle violates no exclusion zone of its field.
pub proof fn lemma_best_site_clear(
    field: Seq<BaseResource>,
    fp: Vec2,
    p: Vec2,
    i: int,
    j: int,
    k: int,
)
    requires
        is_best_site(field, fp, p, i, j),
        0 <= k < field.len(),
    ensures
        gap_sq(zone_of(field[k]).keep_out, rect_from_center(p, fp)) >= zone_of(
            field[k],
        ).min_clearance,
{
    assert(cand_clear(p, fp, field));
}

/// Law: the best-site characterization pins a unique point, so the grid
/// search is deterministic — two results that both satisfy it are equal.
pub proof fn lemma_best_site_unique(
    field: Seq<BaseResource>,
    fp: Vec2,
    p1: Vec2,
    i1: int,
    j1: int,
    p2: Vec2,
    i2: int,
    j2: int,
)
    requires
        is_best_site(field, fp, p1, i1, j1),
        is_best_site(field, fp, p2, i2, j2),
    ensures
        p1 == p2,
{
    assert(valid_cand(field, fp, i1, j1));
    assert(valid_cand(field, fp, i2, j2));
    assert(score_of(p1, field) <= score_of(cand_at(field, fp, i2, j2), field));
    assert(score_of(p2, field) <= score_of(cand_at(field, fp, i1, j1), field));
    assert(score_of(p1, field) == score_of(p2, field));
    assert(lex_le(i1, j1, i2, j2));
    assert(lex_le(i2, j2, i1, j1));
    assert(i1 == i2 && j1 == j2);
}

/// Law: the whole search is deterministic — any two results that satisfy
/// the search's contract on the same field and footprint are equal.
pub proof fn lemma_best_site_deterministic(
    field: Seq<BaseResource>,
    fp: Vec2,
    r1: Option<Vec2>,
    r2: Option<Vec2>,
)
    requires
        r1.is_none() ==> forall|i: int, j: int| !#[trigger] valid_cand(field, fp, i, j),
        r1.is_some() ==> exists|i: int, j: int| is_best_site(field, fp, r1.unwrap(), i, j),
        r2.is_none() ==> forall|i: int, j: int| !#[trigger] valid_cand(field, fp, i, j),
        r2.is_some() ==> exists|i: int, j: int| is_best_site(field, fp, r2.unwrap(), i, j),
    ensures
        r1 == r2,
{
    if r1.is_some() && r2.is_some() {
        let (i1, j1) = choose|i: int, j: int| is_best_site(field, fp, r1.unwrap(), i, j);
        let (i2, j2) = choose|i: int, j: int| is_best_site(field, fp, r2.unwrap(), i, j);
        lemma_best_site_unique(field, fp, r1.unwrap(), i1, j1, r2.unwrap(), i2, j2);
    } else if r1.is_some() {
        let (i1, j1) = choose|i: int, j: int| is_best_site(field, fp, r1.unwrap(), i, j);
        assert(valid_cand(field, fp, i1, j1));
    } else if r2.is_some() {
        let (i2, j2) = choose|i: int, j: int| is_best_site(field, fp, r2.unwrap(), i, j);
        assert(valid_cand(field, fp, i2, j2));
    }
}

/// Law: clustering and zone derivation are deterministic — their results
/// are functions of their inputs, so two runs agree exactly.
pub proof fn lemma_cluster_deterministic(
    s: Seq<BaseResource>,
    t: int,
    r1: Seq<Seq<BaseResource>>,
    r2: Seq<Seq<BaseResource>>,
)
    requires
        r1 == cluster_spec(s, t),
        r2 == cluster_spec(s, t),
    ensures
        r1 == r2,
{
}

/// Law: zone derivation is deterministic — any two zone sequences that
/// both satisfy its contract on the same field are equal.
pub proof fn lemma_zones_deterministic(
    field: Seq<BaseResource>,
    z1: Seq<ExclusionZone>,
    z2: Seq<ExclusionZone>,
)
    requires
        z1.len() == field.len(),
        forall|i: int| 0 <= i < field.len() ==> z1[i] == zone_of(#[trigger] field[i]),
        z2.len() == field.len(),
        forall|i: int| 0 <= i < field.len() ==> z2[i] == zone_of(#[trigger] field[i]),
    ensures
        z1 == z2,
{
    assert forall|i: int| 0 <= i < z1.len() implies z1[i] == z2[i] by {
        assert(z1[i] == zone_of(field[i]));
        assert(z2[i] == zone_of(field[i]));
    }
    assert(z1 =~= z2);
}

/// Law: a non-empty field always yields a non-empty candidate grid: the
/// fixed margin keeps the center-candidate rectangle non-degenerate even
/// for a single deposit.
pub proof fn lemma_search_grid_nonempty(field: Seq<BaseResource>, fp: Vec2)
    requires
        field.len() > 0,
        forall|i: int| 0 <= i < field.len() ==> in_bounds((#[trigger] field[i]).spec_position()),
        0 <= fp.x <= COORD_LIMIT,
        0 <= fp.y <= COORD_LIMIT,
        fp.x % 2 == 0,
        fp.y % 2 == 0,
    ensures
        search_rect(field, fp).min.x <= search_rect(field, fp).max.x,
        search_rect(field, fp).min.y <= search_rect(field, fp).max.y,
        cand_count_x(field, fp) >= 1,
        cand_count_y(field, fp) >= 1,
{
    let ps = field_positions(field);
    assert(ps.len() == field.len());
    crate::geometry::lemma_bbox_bounds(ps);
    assert forall|k: int| 0 <= k < ps.len() implies in_bounds(#[trigger] ps[k]) by {
        assert(ps[k] == field[k].spec_position());
    }
    let bb = crate::geometry::bbox(ps);
    let i0 = choose|i: int| 0 <= i < ps.len() && (#[trigger] ps[i]).x == bb.min.x;
    assert(in_bounds(ps[i0]));
    let i1 = choose|i: int| 0 <= i < ps.len() && (#[trigger] ps[i]).x == bb.max.x;
    assert(in_bounds(ps[i1]));
    let i2 = choose|i: int| 0 <= i < ps.len() && (#[trigger] ps[i]).y == bb.min.y;
    assert(in_bounds(ps[i2]));
    let i3 = choose|i: int| 0 <= i < ps.len() && (#[trigger] ps[i]).y == bb.max.y;
    assert(in_bounds(ps[i3]));
    crate::geometry::lemma_grid_round_bounds(bb.min.x - fp.x / 2 - SEARCH_MARGIN / 2);
    crate::geometry::lemma_grid_round_bounds(bb.min.y - fp.y / 2 - SEARCH_MARGIN / 2);
    crate::geometry::lemma_grid_round_bounds(bb.max.x + fp.x / 2 + SEARCH_MARGIN / 2);
    crate::geometry::lemma_grid_round_bounds(bb.max.y + fp.y / 2 + SEARCH_MARGIN / 2);
    let sr = search_rect(field, fp);
    assert(sr.min.x <= sr.max.x);
    assert(sr.min.y <= sr.max.y);
    vstd::arithmetic::div_mod::lemma_div_pos_is_pos(sr.max.x - sr.min.x, SCALE as int);
    vstd::arithmetic::div_mod::lemma_div_pos_is_pos(sr.max.y - sr.min.y, SCALE as int);
}

/// Every member of every field came from the clustered input.
pub proof fn lemma_cluster_contains(s: Seq<BaseResource>, t: int)
    ensures
        forall|k: int, m: int|
            0 <= k < cluster_spec(s, t).len() && 0 <= m < cluster_spec(s, t)[k].len()
                ==> s.contains(#[trigger] cluster_spec(s, t)[k][m]),
    decreases s.len(),
{
    if s.len() > 0 {
        let seed = s[0];
        let rest = s.drop_first();
        let grp = rest.filter(close_pred(seed, t)).push(seed);
        let rem = rest.filter(far_pred(seed, t));
        rest.lemma_filter_len(far_pred(seed, t));
        lemma_cluster_contains(rem, t);
        assert(cluster_spec(s, t) == seq![grp] + cluster_spec(rem, t));
        assert forall|k: int, m: int|
            0 <= k < cluster_spec(s, t).len() && 0 <= m < cluster_spec(s, t)[k].len()
                implies s.contains(#[trigger] cluster_spec(s, t)[k][m]) by {
            if k == 0 {
                assert(cluster_spec(s, t)[0] == grp);
                let e = grp[m];
                if m < grp.len() - 1 {
                    let within = rest.filter(close_pred(seed, t));
                    assert(within.contains(e));
                    rest.lemma_filter_contains_rev(close_pred(seed, t), e);
                    let w = choose|w: int| 0 <= w < rest.len() && rest[w] == e;
                    assert(s[w + 1] == e);
                } else {
                    assert(e == seed);
                    assert(s[0] == e);
                }
            } else {
                assert(cluster_spec(s, t)[k] == cluster_spec(rem, t)[k - 1]);
                let e = cluster_spec(rem, t)[k - 1][m];
                assert(rem.contains(e));
                rest.lemma_filter_contains_rev(far_pred(seed, t), e);
                let w = choose|w: int| 0 <= w < rest.len() && rest[w] == e;
                assert(s[w + 1] == e);
            }
        }
    }
}

/// One registered site agrees with what the engine's contracts demand of
/// its field: its position satisfies the best-site characterization, it
/// links exactly the field's deposits, and its occupancy reflects the
/// first structure within tolerance.
pub open spec fn site_matches(
    site: BaseSite,
    field: Seq<BaseResource>,
    structures: Seq<(GameId, Vec2)>,
    fp: Vec2,
) -> bool {
    &&& exists|i: int, j: int| is_best_site(field, fp, site.position, i, j)
    &&& site.linked_resources@ == field.map_values(|r: BaseResource| r.spec_entity())
    &&& (site.occupied <==> exists|j: int|
        0 <= j < structures.len() && occupies((#[trigger] structures[j]).1, site.position))
    &&& site.occupied ==> exists|j: int|
        {
            &&& 0 <= j < structures.len()
            &&& occupies((#[trigger] structures[j]).1, site.position)
            &&& site.occupying_structure == Some(structures[j].0)
            &&& forall|k: int| 0 <= k < j ==> !occupies((#[trigger] structures[k]).1, site.position)
        }
    &&& !site.occupied ==> site.occupying_structure.is_none()
}

/// Some candidate center of the field clears every exclusion zone.
pub open spec fn has_site(field: Seq<BaseResource>, fp: Vec2) -> bool {
    exists|i: int, j: int| valid_cand(field, fp, i, j)
}

/// The sites of a pass line up with its fields, in field order: each field
/// with a feasible candidate contributes exactly one matching site, and an
/// infeasible field contributes none.
pub open spec fn pass_matches(
    fields: Seq<Seq<BaseResource>>,
    sites: Seq<BaseSite>,
    structures: Seq<(GameId, Vec2)>,
    fp: Vec2,
) -> bool
    decreases fields.len(),
{
    if fields.len() == 0 {
        sites.len() == 0
    } else if has_site(fields[0], fp) {
        &&& sites.len() > 0
        &&& site_matches(sites[0], fields[0], structures, fp)
        &&& pass_matches(fields.drop_first(), sites.drop_first(), structures, fp)
    } else {
        pass_matches(fields.drop_first(), sites, structures, fp)
    }
}

/// Appending one processed field extends a matching pass.
proof fn lemma_pass_matches_push(
    fields: Seq<Seq<BaseResource>>,
    sites: Seq<BaseSite>,
    structures: Seq<(GameId, Vec2)>,
    fp: Vec2,
    field: Seq<BaseResource>,
    produced: Option<BaseSite>,
)
    requires
        pass_matches(fields, sites, structures, fp),
        has_site(field, fp) ==> produced.is_some() && site_matches(
            produced.unwrap(),
            field,
            structures,
            fp,
        ),
        !has_site(field, fp) ==> produced.is_none(),
    ensures
        pass_matches(
            fields.push(field),
            if produced.is_some() {
                sites.push(produced.unwrap())
            } else {
                sites
            },
            structures,
            fp,
        ),
    decreases fields.len(),
{
    let new_sites = if produced.is_some() {
        sites.push(produced.unwrap())
    } else {
        sites
    };
    if fields.len() == 0 {
        assert(sites.len() == 0);
        assert(sites =~= Seq::<BaseSite>::empty());
        assert(fields.push(field)[0] == field);
        assert(fields.push(field).drop_first() =~= Seq::<Seq<BaseResource>>::empty());
        assert(pass_matches(
            Seq::<Seq<BaseResource>>::empty(),
            Seq::<BaseSite>::empty(),
            structures,
            fp,
        ));
        if has_site(field, fp) {
            assert(new_sites == sites.push(produced.unwrap()));
            assert(new_sites[0] == produced.unwrap());
            assert(new_sites.drop_first() =~= Seq::<BaseSite>::empty());
        } else {
            assert(new_sites =~= Seq::<BaseSite>::empty());
        }
    } else {
        assert(fields.push(field)[0] == fields[0]);
        assert(fields.push(field).drop_first() =~= fields.drop_first().push(field));
        if has_site(fields[0], fp) {
            lemma_pass_matches_push(
                fields.drop_first(),
                sites.drop_first(),
                structures,
                fp,
                field,
                produced,
            );
            assert(sites.len() > 0);
            assert(new_sites[0] == sites[0]);
            if produced.is_some() {
                assert(new_sites.drop_first() =~= sites.drop_first().push(produced.unwrap()));
            }
        } else {
            lemma_pass_matches_push(fields.drop_first(), sites, structures, fp, field, produced);
        }
    }
}

/// Run one full placement pass: cluster the deposits into fields with the
/// fixed proximity threshold, search each field for the best center of the
/// colony structure's footprint, and register every found center against
/// the existing structures.  Fields that leave no valid candidate yield no
/// site.
pub fn placement_pass(
    deposits: Vec<BaseResource>,
    existing_structures: &Vec<(GameId, Vec2)>,
) -> (sites: Vec<BaseSite>)
    requires
        forall|i: int|
            0 <= i < deposits@.len() ==> in_bounds((#[trigger] deposits@[i]).spec_position()),
        forall|i: int|
            0 <= i < existing_structures@.len() ==> in_bounds(
                (#[trigger] existing_structures@[i]).1,
            ),
    ensures
        pass_matches(
            cluster_spec(deposits@, CLUSTER_THRESHOLD as int),
            sites@,
            existing_structures@,
            crate::entity::Hatchery::spec_footprint(),
        ),
{
    let ghost dseq = deposits@;
    let ghost cfields = cluster_spec(deposits@, CLUSTER_THRESHOLD as int);
    let ghost fp = crate::entity::Hatchery::spec_footprint();
    let footprint = crate::entity::Hatchery::footprint();
    let fields = cluster(deposits, CLUSTER_THRESHOLD);
    proof {
        lemma_cluster_contains(dseq, CLUSTER_THRESHOLD as int);
        assert(cfields.take(0) =~= Seq::<Seq<BaseResource>>::empty());
    }
    let mut sites: Vec<BaseSite> = Vec::new();
    let mut fi: usize = 0;
    while fi < fields.len()
        invariant
            0 <= fi <= fields@.len(),
            fp == crate::entity::Hatchery::spec_footprint(),
            footprint == fp,
            fields@.map_values(|f: Vec<BaseResource>| f@) == cfields,
            cfields == cluster_spec(dseq, CLUSTER_THRESHOLD as int),
            forall|i: int| 0 <= i < dseq.len() ==> in_bounds((#[trigger] dseq[i]).spec_position()),
            forall|i: int|
                0 <= i < existing_structures@.len() ==> in_bounds(
                    (#[trigger] existing_structures@[i]).1,
                ),
            forall|k: int, m: int|
                0 <= k < cfields.len() && 0 <= m < cfields[k].len() ==> dseq.contains(
                    #[trigger] cfields[k][m],
                ),
            pass_matches(cfields.take(fi as int), sites@, existing_structures@, fp),
        decreases fields@.len() - fi,
    {
        let field = &fields[fi];
        proof {
            assert(field@ == cfields[fi as int]);
            assert forall|m: int| 0 <= m < field@.len() implies in_bounds(
                (#[trigger] field@[m]).spec_position(),
            ) by {
                assert(dseq.contains(cfields[fi as int][m]));
                let w = choose|w: int| 0 <= w < dseq.len() && dseq[w] == cfields[fi as int][m];
                assert(in_bounds(dseq[w].spec_position()));
            }
        }
        let produced: Option<BaseSite> = match best_site(field, footprint) {
            Option::Some(pos) => Some(register(pos, field, existing_structures)),
            Option::None => None,
        };
        proof {
            if produced.is_some() {
                let (wi, wj) = choose|i: int, j: int|
                    is_best_site(field@, fp, produced.unwrap().position, i, j);
                assert(valid_cand(field@, fp, wi, wj));
                assert(has_site(field@, fp));
                assert(site_matches(produced.unwrap(), field@, existing_structures@, fp));
            } else {
                assert(!has_site(field@, fp)) by {
                    if has_site(field@, fp) {
                        let (wi, wj) = choose|i: int, j: int| valid_cand(field@, fp, i, j);
                        assert(!valid_cand(field@, fp, wi, wj));
                    }
                }
            }
            lemma_pass_matches_push(
                cfields.take(fi as int),
                sites@,
                existing_structures@,
                fp,
                field@,
                produced,
            );
            assert(cfields.take(fi + 1) =~= cfields.take(fi as int).push(cfields[fi as int]));
        }
        if let Some(site) = produced {
            sites.push(site);
        }
        fi = fi + 1;
    }
    proof {
        assert(cfields.take(cfields.len() as int) =~= cfields);
    }
    sites
}

/// Complementary filters split a sequence's contents exactly in two.
proof fn lemma_filter_partition_multiset(
    s: Seq<BaseResource>,
    p: spec_fn(BaseResource) -> bool,
    q: spec_fn(BaseResource) -> bool,
)
    requires
        forall|r: BaseResource| #[trigger] q(r) <==> !p(r),
    ensures
        s.filter(p).to_multiset().add(s.filter(q).to_multiset()) =~= s.to_multiset(),
    decreases s.len(),
{
    broadcast use vstd::seq_lib::group_to_multiset_ensures;
    broadcast use vstd::multiset::group_multiset_axioms;

    reveal(Seq::filter);
    if s.len() > 0 {
        let s0 = s.drop_last();
        let a = s.last();
        lemma_filter_partition_multiset(s0, p, q);
        assert(s =~= s0.push(a));
        s0.lemma_filter_push(a, p);
        s0.lemma_filter_push(a, q);
    }
}

/// Law: clustering partitions the deposits.  No field is empty, and the
/// fields together hold exactly the input deposits, each with its input
/// multiplicity — so every deposit belongs to exactly one field.
pub proof fn lemma_cluster_partition(s: Seq<BaseResource>, t: int)
    ensures
        forall|k: int|
            0 <= k < cluster_spec(s, t).len() ==> (#[trigger] cluster_spec(s, t)[k]).len() > 0,
        cluster_spec(s, t).flatten().to_multiset() =~= s.to_multiset(),
    decreases s.len(),
{
    broadcast use vstd::seq_lib::group_to_multiset_ensures;
    broadcast use vstd::multiset::group_multiset_axioms;

    if s.len() == 0 {
        assert(cluster_spec(s, t) =~= Seq::<Seq<BaseResource>>::empty());
        assert(cluster_spec(s, t).flatten() =~= Seq::<BaseResource>::empty());
    } else {
        let seed = s[0];
        let rest = s.drop_first();
        let grp = rest.filter(close_pred(seed, t)).push(seed);
        let rem = rest.filter(far_pred(seed, t));
        rest.lemma_filter_len(far_pred(seed, t));
        lemma_cluster_partition(rem, t);
        assert(cluster_spec(s, t) == seq![grp] + cluster_spec(rem, t));

        // Non-emptiness: the head field ends with its seed, the tail fields
        // are non-empty by induction.
        assert forall|k: int|
            0 <= k < cluster_spec(s, t).len() implies (#[trigger] cluster_spec(s, t)[k]).len()
            > 0 by {
            if k == 0 {
                assert(cluster_spec(s, t)[0] == grp);
            } else {
                assert(cluster_spec(s, t)[k] == cluster_spec(rem, t)[k - 1]);
            }
        }

        // The flattened fields hold the head group plus the flattened tail.
        vstd::seq_lib::lemma_flatten_concat(seq![grp], cluster_spec(rem, t));
        seq![grp].lemma_flatten_one_element();
        assert(seq![grp].flatten() == grp);
        vstd::seq_lib::lemma_multiset_commutative(grp, cluster_spec(rem, t).flatten());

        // The head group and the remainder split `rest` exactly.
        lemma_filter_partition_multiset(rest, close_pred(seed, t), far_pred(seed, t));

        // And `s` itself is the seed followed by `rest`.
        assert(s =~= seq![seed] + rest);
        vstd::seq_lib::lemma_multiset_commutative(seq![seed], rest);
        assert(seq![seed].to_multiset() =~= Multiset::<BaseResource>::empty().insert(seed)) by {
            assert(seq![seed] =~= Seq::<BaseResource>::empty().push(seed));
        }
    }
}

} // verus!
