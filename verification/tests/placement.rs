use sc2_ai::base::{best_site, cluster, placement_pass, register, zones_for};
use sc2_ai::entity::{BaseResource, GameId};
use sc2_ai::geometry::{Rect, Vec2};

fn mineral(id: u64, x: i64, y: i64) -> BaseResource {
    BaseResource::Mineral { entity: GameId(id), pos: Vec2 { x, y } }
}

fn vespene(id: u64, x: i64, y: i64) -> BaseResource {
    BaseResource::Vespene { entity: GameId(id), pos: Vec2 { x, y } }
}

fn hatchery() -> Vec2 {
    Vec2 { x: 50, y: 50 }
}

#[test]
fn cluster_of_nothing_is_empty() {
    let fields = cluster(Vec::new(), 150);
    assert_eq!(fields.len(), 0);
}

#[test]
fn cluster_groups_by_proximity() {
    // Two tight groups far apart.
    let deposits = vec![
        mineral(1, 0, 0),
        mineral(2, 30, 0),
        mineral(3, 10000, 10000),
        mineral(4, 10030, 10000),
    ];
    let fields = cluster(deposits, 150);
    assert_eq!(fields.len(), 2);
    // Each field holds the matching pair; the seed comes last.
    let ids =
        |f: &Vec<BaseResource>| f.iter().map(|r| r.entity().0).collect::<Vec<u64>>();
    assert_eq!(ids(&fields[0]), vec![2, 1]);
    assert_eq!(ids(&fields[1]), vec![4, 3]);
}

#[test]
fn cluster_is_seed_relative_not_transitive() {
    // B and C are both near each other, but only B is within threshold of
    // the seed A, so C starts its own field even though |B - C| is small.
    let a = mineral(1, 0, 0);
    let b = mineral(2, 140, 0);
    let c = mineral(3, 280, 0);
    let fields = cluster(vec![a, b, c], 150);
    assert_eq!(fields.len(), 2);
    assert_eq!(fields[0].len(), 2);
    assert_eq!(fields[0][0].entity().0, 2);
    assert_eq!(fields[0][1].entity().0, 1);
    assert_eq!(fields[1].len(), 1);
    assert_eq!(fields[1][0].entity().0, 3);
}

#[test]
fn cluster_is_a_partition() {
    let deposits = vec![
        mineral(1, 0, 0),
        vespene(2, 60, 60),
        mineral(3, 500, 0),
        mineral(4, 30, 0),
        vespene(5, 520, 20),
    ];
    let fields = cluster(deposits.clone(), 150);
    // Every deposit appears in exactly one field.
    for d in &deposits {
        let mut count = 0;
        for f in &fields {
            for r in f {
                if r == d {
                    count += 1;
                }
            }
        }
        assert_eq!(count, 1);
    }
    // And the fields together hold exactly the input.
    let total: usize = fields.iter().map(|f| f.len()).sum();
    assert_eq!(total, deposits.len());
    for f in &fields {
        assert!(!f.is_empty());
    }
}

#[test]
fn cluster_is_deterministic() {
    let deposits = vec![mineral(1, 0, 0), vespene(2, 60, 60), mineral(3, 500, 0)];
    let once = cluster(deposits.clone(), 150);
    let twice = cluster(deposits, 150);
    assert_eq!(once, twice);
}

#[test]
fn zones_match_deposit_kinds() {
    let field = vec![mineral(1, 100, 200), vespene(2, 0, 0)];
    let zones = zones_for(&field);
    assert_eq!(zones.len(), 2);
    // Mineral: footprint 2x1 world units around the deposit, clearance 8
    // in the squared-gap metric (800 in fixed-point units).
    assert_eq!(zones[0].keep_out, Rect {
        min: Vec2 { x: 90, y: 195 },
        max: Vec2 { x: 110, y: 205 },
    });
    assert_eq!(zones[0].min_clearance, 800);
    // Vespene: footprint 3x3, clearance 5 (500 fixed-point).
    assert_eq!(zones[1].keep_out, Rect {
        min: Vec2 { x: -15, y: -15 },
        max: Vec2 { x: 15, y: 15 },
    });
    assert_eq!(zones[1].min_clearance, 500);
}

#[test]
fn zones_are_deterministic() {
    let field = vec![mineral(1, 100, 200), vespene(2, 0, 0)];
    assert_eq!(zones_for(&field), zones_for(&field));
}

#[test]
fn best_site_of_empty_field_is_none() {
    assert_eq!(best_site(&Vec::new(), hatchery()), None);
}

#[test]
fn single_deposit_field_is_infeasible() {
    // A single mineral at the origin: the search rectangle is non-empty
    // (the fixed margin guarantees that), but every candidate footprint
    // overlaps the deposit's keep-out zone, so no site is selected.
    let field = vec![mineral(1, 0, 0)];
    assert_eq!(best_site(&field, hatchery()), None);
}

#[test]
fn packed_field_is_infeasible() {
    // Deposits hemming in the whole search rectangle leave no valid gap.
    let field = vec![
        mineral(1, 0, 0),
        mineral(2, 30, 0),
        mineral(3, 0, 30),
        mineral(4, 30, 30),
    ];
    assert_eq!(best_site(&field, hatchery()), None);
}

/// The integer squared-gap metric between two axis-aligned rectangles,
/// exactly as the engine defines it.
fn gap_sq(amin: (i64, i64), amax: (i64, i64), bmin: (i64, i64), bmax: (i64, i64)) -> i64 {
    let pos = |v: i64| if v > 0 { v } else { 0 };
    let ux = pos(amin.0 - bmax.0);
    let uy = pos(amin.1 - bmax.1);
    let vx = pos(bmin.0 - amax.0);
    let vy = pos(bmin.1 - amax.1);
    ux * ux + uy * uy + vx * vx + vy * vy
}

#[test]
fn scenario_two_minerals_one_geyser() {
    // Two minerals at (0,0) and (3,0), one geyser at (6,6), threshold 15:
    // a single field.
    let deposits = vec![mineral(1, 0, 0), mineral(2, 30, 0), vespene(3, 60, 60)];
    let fields = cluster(deposits, 150);
    assert_eq!(fields.len(), 1);
    let field = &fields[0];
    assert_eq!(field.len(), 3);

    let site = best_site(field, hatchery()).expect("the field leaves valid candidates");

    // The search rectangle for this field spans centers -2.5..=8.5 on both
    // axes.  Recompute the surviving candidates and their mean distances
    // directly and check the selected site is the earliest minimizer.
    let zones = [
        ((-10_i64, -5_i64), (10_i64, 5_i64), 800_i64),
        ((20, -5), (40, 5), 800),
        ((45, 45), (75, 75), 500),
    ];
    let positions = [(0.0_f64, 0.0_f64), (3.0, 0.0), (6.0, 6.0)];
    let mut best: Option<((i64, i64), f64)> = None;
    let mut x = -25_i64;
    while x <= 85 {
        let mut y = -25_i64;
        while y <= 85 {
            let bmin = (x - 25, y - 25);
            let bmax = (x + 25, y + 25);
            let ok = zones
                .iter()
                .all(|&(zmin, zmax, c)| gap_sq(zmin, zmax, bmin, bmax) >= c);
            if ok {
                let fx = x as f64 / 10.0;
                let fy = y as f64 / 10.0;
                let mean: f64 = positions
                    .iter()
                    .map(|&(px, py)| ((fx - px).powi(2) + (fy - py).powi(2)).sqrt())
                    .sum::<f64>()
                    / 3.0;
                match best {
                    None => best = Some(((x, y), mean)),
                    Some((_, m)) if mean < m - 1e-9 => best = Some(((x, y), mean)),
                    _ => {}
                }
            }
            y += 10;
        }
        x += 10;
    }
    let ((bx, by), best_mean) = best.expect("brute force finds a candidate");
    assert_eq!(site, Vec2 { x: bx, y: by });
    assert_eq!(site, Vec2 { x: -5, y: 65 });

    // The selected site's mean distance is no worse than any other
    // surviving candidate's.
    let fx = site.x as f64 / 10.0;
    let fy = site.y as f64 / 10.0;
    let site_mean: f64 = positions
        .iter()
        .map(|&(px, py)| ((fx - px).powi(2) + (fy - py).powi(2)).sqrt())
        .sum::<f64>()
        / 3.0;
    assert!((site_mean - best_mean).abs() < 1e-9);
}

#[test]
fn best_site_respects_every_exclusion_zone() {
    let deposits = vec![mineral(1, 0, 0), mineral(2, 30, 0), vespene(3, 60, 60)];
    let fields = cluster(deposits, 150);
    let field = &fields[0];
    let site = best_site(field, hatchery()).unwrap();
    let footprint = Rect::from_center(site, hatchery());
    for zone in zones_for(field) {
        assert!(zone.keep_out.min_distance_squared(&footprint) >= zone.min_clearance);
    }
}

#[test]
fn cluster_keeps_duplicate_positions_together() {
    let deposits = vec![mineral(1, 50, 50), mineral(2, 50, 50), mineral(3, 50, 50)];
    let fields = cluster(deposits, 150);
    assert_eq!(fields.len(), 1);
    assert_eq!(fields[0].len(), 3);
}

#[test]
fn cluster_with_zero_threshold_groups_only_coincident_deposits() {
    let deposits = vec![mineral(1, 0, 0), mineral(2, 0, 0), mineral(3, 1, 0)];
    let fields = cluster(deposits, 0);
    assert_eq!(fields.len(), 2);
    assert_eq!(fields[0].len(), 2);
    assert_eq!(fields[1].len(), 1);
    assert_eq!(fields[1][0].entity().0, 3);
}

#[test]
fn best_site_is_deterministic() {
    let deposits = vec![mineral(1, 0, 0), mineral(2, 30, 0), vespene(3, 60, 60)];
    let fields = cluster(deposits, 150);
    let once = best_site(&fields[0], hatchery());
    let twice = best_site(&fields[0], hatchery());
    assert_eq!(once, twice);
    assert!(once.is_some());
}

#[test]
fn register_detects_occupation_within_tolerance() {
    // A structure at (10.5, 9.8) is within 1.0 of the site (10, 10).
    let field = vec![mineral(7, 0, 0)];
    let existing = vec![(GameId(42), Vec2 { x: 105, y: 98 })];
    let site = register(Vec2 { x: 100, y: 100 }, &field, &existing);
    assert!(site.occupied);
    assert_eq!(site.occupying_structure, Some(GameId(42)));
    assert_eq!(site.position, Vec2 { x: 100, y: 100 });
    assert_eq!(site.linked_resources, vec![GameId(7)]);
}

#[test]
fn register_leaves_distant_site_unoccupied() {
    // A structure at (12, 12) is at least 1.0 away from the site (10, 10).
    let field = vec![mineral(7, 0, 0), vespene(8, 60, 60)];
    let existing = vec![(GameId(42), Vec2 { x: 120, y: 120 })];
    let site = register(Vec2 { x: 100, y: 100 }, &field, &existing);
    assert!(!site.occupied);
    assert_eq!(site.occupying_structure, None);
    assert_eq!(site.linked_resources, vec![GameId(7), GameId(8)]);
}

#[test]
fn register_takes_first_structure_within_tolerance() {
    let field = vec![mineral(7, 0, 0)];
    let existing = vec![
        (GameId(1), Vec2 { x: 500, y: 500 }),
        (GameId(2), Vec2 { x: 101, y: 100 }),
        (GameId(3), Vec2 { x: 100, y: 101 }),
    ];
    let site = register(Vec2 { x: 100, y: 100 }, &field, &existing);
    assert!(site.occupied);
    assert_eq!(site.occupying_structure, Some(GameId(2)));
}

#[test]
fn pass_links_sites_to_their_fields() {
    // One feasible field and one infeasible lone mineral: one site comes
    // out, linked to the feasible field's deposits, and occupied by the
    // structure standing on the computed center (-0.5, 6.5).
    let deposits = vec![
        mineral(1, 0, 0),
        mineral(2, 30, 0),
        vespene(3, 60, 60),
        mineral(9, 10000, 10000),
    ];
    let structures = vec![(GameId(77), Vec2 { x: -5, y: 70 })];
    let sites = placement_pass(deposits, &structures);
    assert_eq!(sites.len(), 1);
    let site = &sites[0];
    assert_eq!(site.position, Vec2 { x: -5, y: 65 });
    assert!(site.occupied);
    assert_eq!(site.occupying_structure, Some(GameId(77)));
    assert_eq!(site.linked_resources, vec![GameId(2), GameId(3), GameId(1)]);
}

#[test]
fn pass_without_structures_yields_unoccupied_sites() {
    let deposits = vec![mineral(1, 0, 0), mineral(2, 30, 0), vespene(3, 60, 60)];
    let sites = placement_pass(deposits, &Vec::new());
    assert_eq!(sites.len(), 1);
    assert!(!sites[0].occupied);
    assert_eq!(sites[0].occupying_structure, None);
}
