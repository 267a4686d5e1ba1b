use sc2_ai::color::Color;
use sc2_ai::entity::{GameEntity, Hatchery, MineralPatch, VespeneGeyser, Worker};
use sc2_ai::geometry::Vec2;
use sc2_ai::player::PlayerResources;
use sc2_ai::version::get_latest_base_version;
use sc2_ai::webview::{Grid, ImageData, OutgoingMessage, RenderData, Size2DI};

#[test]
fn footprints_match_the_catalog() {
    assert_eq!(MineralPatch::footprint(), Vec2 { x: 20, y: 10 });
    assert_eq!(VespeneGeyser::footprint(), Vec2 { x: 30, y: 30 });
    assert_eq!(Hatchery::footprint(), Vec2 { x: 50, y: 50 });
    assert_eq!(Worker::footprint(), Vec2 { x: 10, y: 10 });
}

#[test]
fn colors_carry_their_channels() {
    let c = Color::rgb(1, 2, 3);
    assert_eq!(c, Color { r: 1, g: 2, b: 3 });
    assert_eq!(Color::default(), Color { r: 255, g: 255, b: 255 });
    assert_eq!(Color::red(), Color { r: 255, g: 0, b: 0 });
    assert_eq!(Color::green(), Color { r: 0, g: 255, b: 0 });
    assert_eq!(Color::blue(), Color { r: 0, g: 0, b: 255 });
}

#[test]
fn player_resources_from_snapshot_counters() {
    let r = PlayerResources::from_common(50, 25, 14, 12);
    assert_eq!(r.minerals, 50);
    assert_eq!(r.vespene, 25);
    assert_eq!(r.unit_capacity, 14);
    assert_eq!(r.used_capacity, 12);
}

#[test]
fn latest_base_version_takes_the_numeric_maximum() {
    let names = vec![
        "Base75689".to_string(),
        "Base69232".to_string(),
        "Support64".to_string(),
        "Base81009".to_string(),
    ];
    assert_eq!(get_latest_base_version(&names), Some(81009));
}

#[test]
fn latest_base_version_ignores_malformed_names() {
    // No entries at all.
    assert_eq!(get_latest_base_version(&Vec::new()), None);
    // Entries without a well-formed build number carry none: a bare
    // prefix, a non-digit suffix, and a number too large for the version
    // type are all passed over.
    let names = vec![
        "Base".to_string(),
        "Base12b".to_string(),
        "Base99999999999".to_string(),
        "maps".to_string(),
    ];
    assert_eq!(get_latest_base_version(&names), None);
    // A single good entry still wins over the noise.
    let mixed = vec!["Base12b".to_string(), "Base7".to_string()];
    assert_eq!(get_latest_base_version(&mixed), Some(7));
}

#[test]
fn render_message_wraps_both_grids() {
    let placement = ImageData {
        bits_per_pixel: 1,
        size: Size2DI { x: 8, y: 1 },
        data: vec![0xff],
    };
    let pathing = ImageData {
        bits_per_pixel: 1,
        size: Size2DI { x: 8, y: 1 },
        data: vec![0x0f],
    };
    let msg = sc2_ai::webview::render_message(placement.clone(), pathing.clone());
    assert_eq!(
        msg,
        OutgoingMessage::Render { data: RenderData { grid: Grid { placement, pathing } } }
    );
}
