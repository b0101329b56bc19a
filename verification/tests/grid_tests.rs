use tileworld::collision::TILE_UNITS;
use tileworld::errors::log_enabled;
use tileworld::font::{blend_channel, render_font_unifont};
use tileworld::input::{contains_i32, ButtonState, KeyBind, KeyBindings, Mouse};
use tileworld::textures::get_texture_atlas;
use tileworld::errors::{LogType, Logging};
use tileworld::inventory::{Inventory, Item, ItemDrop, ItemType};
use tileworld::lighting::LightRegion;
use tileworld::registry::{Dimension, TileMapManager};
use tileworld::tile_map::TileMap;

#[test]
fn get_tile_out_of_bounds_is_empty() {
    let map = TileMap::new(8, 6).unwrap();
    // Bounds safety: every out-of-range read is the empty tile, no panic.
    assert_eq!(map.get_tile(8, 0, 0), 0);
    assert_eq!(map.get_tile(0, 6, 0), 0);
    assert_eq!(map.get_tile(usize::MAX, usize::MAX, 0), 0);
    assert_eq!(map.get_tile(3, 3, 7), 0);
    assert_eq!(map.get_tile(7, 5, 2), 0);
}

#[test]
fn new_map_is_empty_and_rejects_bad_dimensions() {
    let map = TileMap::new(4, 3).unwrap();
    assert_eq!(map.get_map_width(), 4);
    assert_eq!(map.get_map_height(), 3);
    for y in 0..3 {
        for x in 0..4 {
            for layer in 0..3 {
                assert_eq!(map.get_tile(x, y, layer), 0);
            }
        }
    }
    for x in 0..4 {
        assert_eq!(map.get_sky_light(x), 3);
    }
    assert!(TileMap::new(0, 5).is_err());
    assert!(TileMap::new(5, 0).is_err());
}

#[test]
fn change_tile_writes_and_updates_sky() {
    let mut map = TileMap::new(10, 10).unwrap();
    map.change_tile(4, 7, 0, 44).unwrap();
    assert_eq!(map.get_tile(4, 7, 0), 44);
    assert_eq!(map.get_sky_light(4), 7);
    // A solid tile above lowers the recorded height further.
    map.change_tile(4, 2, 0, 44).unwrap();
    assert_eq!(map.get_sky_light(4), 2);
    // Removing it rescans down to the remaining solid tile.
    map.change_tile(4, 2, 0, 0).unwrap();
    assert_eq!(map.get_sky_light(4), 7);
    // Removing the last solid tile leaves the column fully open.
    map.change_tile(4, 7, 0, 0).unwrap();
    assert_eq!(map.get_sky_light(4), 10);
}

#[test]
fn mutable_tile_access_writes_through() {
    let mut map = TileMap::new(6, 6).unwrap();
    *map.get_tile_mut(2, 2, 1) = 50;
    assert_eq!(map.get_tile(2, 2, 1), 50);
    assert_eq!(map.get_tile(2, 2, 0), 0);
}

#[test]
fn placed_light_seeds_its_cell() {
    let mut map = TileMap::new(12, 12).unwrap();
    map.change_tile(6, 6, 0, 88).unwrap();
    assert_eq!(map.get_light(6, 6, 0), 255);
    assert_eq!(map.get_light(6, 6, 1), 255);
    assert_eq!(map.get_light(6, 6, 2), 128);
    // The torch entry carries its own color.
    map.change_tile(9, 6, 0, 173).unwrap();
    assert_eq!(map.get_light(9, 6, 0), 200);
}

#[test]
fn removed_light_resets_neighborhood() {
    let mut map = TileMap::new(12, 12).unwrap();
    map.change_tile(6, 6, 0, 88).unwrap();
    assert!(map.get_light(7, 6, 0) > 0);
    map.change_tile(6, 6, 0, 0).unwrap();
    assert_eq!(map.get_light(6, 6, 0), 0);
    assert_eq!(map.get_light(7, 6, 0), 0);
    assert_eq!(map.get_light(5, 5, 1), 0);
}

#[test]
fn relaxation_is_monotone_and_idempotent_on_values() {
    let mut map = TileMap::new(20, 20).unwrap();
    map.change_tile(5, 5, 0, 88).unwrap();
    let before: Vec<u8> = (0..20)
        .flat_map(|y| (0..20).flat_map(move |x| (0..3).map(move |c| (x, y, c))))
        .map(|(x, y, c)| map.get_light(x, y, c))
        .collect();
    // One more full-grid pass: no value decreases (monotonicity), and the
    // already-converged values do not change (idempotence).
    let region = LightRegion { x0: 0, x1: 20, y0: 0, y1: 20 };
    map.relax_light_region(region, 1);
    let mut idx = 0;
    for y in 0..20 {
        for x in 0..20 {
            for c in 0..3 {
                let after = map.get_light(x, y, c);
                assert!(after >= before[idx]);
                assert_eq!(after, before[idx]);
                idx += 1;
            }
        }
    }
}

#[test]
fn aabb_collision_covers_solid_tiles_only() {
    let mut map = TileMap::new(10, 10).unwrap();
    map.change_tile(2, 3, 0, 44).unwrap();
    assert_eq!(TILE_UNITS, 8);
    // Tile (2, 3) spans sub-tile units [16, 24) by [24, 32).
    assert!(map.check_aabb_collision(17, 25, 2, 2));
    assert!(map.check_aabb_collision(15, 23, 2, 2));
    assert!(!map.check_aabb_collision(0, 0, 8, 8));
    assert!(!map.check_aabb_collision(25, 33, 4, 4));
    // Boxes outside the grid are skipped, not clamped.
    assert!(!map.check_aabb_collision(-50, -50, 20, 20));
    // A cactus is not solid.
    map.change_tile(5, 5, 0, 153).unwrap();
    assert!(!map.check_aabb_collision(40, 40, 8, 8));
}

#[test]
fn entity_lights_add_and_update_by_name() {
    let mut map = TileMap::new(6, 6).unwrap();
    map.add_entity_light(String::from("player"), (10, 12), (255, 200, 150, 2000));
    map.add_entity_light(String::from("lantern"), (20, 20), (90, 90, 90, 1000));
    assert_eq!(map.entity_lights.len(), 2);
    // Adding under a known name is a no-op: no duplicate ever enters the
    // list, so no light is counted twice by the render slice.
    map.add_entity_light(String::from("player"), (0, 0), (1, 1, 1, 1));
    assert_eq!(map.entity_lights.len(), 2);
    assert_eq!(map.entity_lights[0].1.position, (10, 12));
    assert_eq!(map.entity_lights[0].1.color.3, 2000);
    map.update_entity_light("player", (30, 32), (255, 200, 150, 2500));
    assert_eq!(map.entity_lights[0].1.position, (30, 32));
    assert_eq!(map.entity_lights[0].1.color.3, 2500);
    // Updating an unknown name is a no-op, not an error.
    map.update_entity_light("ghost", (0, 0), (1, 1, 1, 1));
    assert_eq!(map.entity_lights.len(), 2);
    assert_eq!(map.entity_lights[1].1.position, (20, 20));
}

#[test]
fn registry_replaces_and_hands_out_maps() {
    let mut manager = TileMapManager::new();
    assert!(manager.get_current_map(Dimension::Overworld).is_none());
    assert!(manager.get_current_map_ref(Dimension::Overworld).is_none());
    let map = TileMap::new(5, 5).unwrap();
    manager.replace_tile_map(Dimension::Overworld, map);
    {
        let held = manager.get_current_map(Dimension::Overworld).unwrap();
        held.change_tile(1, 1, 0, 44).unwrap();
    }
    let held = manager.get_current_map_ref(Dimension::Overworld).unwrap();
    assert_eq!(held.get_tile(1, 1, 0), 44);
    // The counting variant owns no slot.
    assert!(manager.get_current_map(Dimension::TOTAL).is_none());
}

#[test]
fn inventory_stacks_then_fills_then_rejects() {
    let mut inv = Inventory::new();
    let drop = |count: usize, max: usize| {
        ItemDrop::Tile(
            7,
            Item::new(7, Some(ItemType::Block(1)), String::from("Dirt"), count, max),
        )
    };
    // With room to stack, the second drop joins the first slot: its count
    // rises by one and no other slot is touched.
    assert!(inv.add_item(drop(1, 2)).is_none());
    assert!(inv.add_item(drop(1, 2)).is_none());
    let first = inv.inventory[0].as_ref().unwrap();
    assert_eq!(first.item_count, 2);
    assert_eq!(first.name, "Dirt");
    assert!(inv.inventory[1].is_none());
    // The full first slot no longer stacks; the next drop opens slot two.
    assert!(inv.add_item(drop(1, 2)).is_none());
    assert_eq!(inv.inventory[0].as_ref().unwrap().item_count, 2);
    assert_eq!(inv.inventory[1].as_ref().unwrap().item_count, 1);
    // With single-item stacks the grid fills one slot per drop, and the
    // forty-first drop comes back.
    let mut inv = Inventory::new();
    for _ in 0..40 {
        assert!(inv.add_item(drop(1, 1)).is_none());
    }
    assert!(inv.add_item(drop(1, 1)).is_some());
    // The full grid came back unchanged.
    assert!(inv.inventory.iter().all(|slot| slot.as_ref().unwrap().item_count == 1));
    // The starting hotbar loadout.
    assert_eq!(inv.hot_bar[3].as_ref().unwrap().item_count, 128);
    assert_eq!(inv.hot_bar[4].as_ref().unwrap().name, "Torch");
    assert!(inv.hot_bar[9].is_none());
}

#[test]
fn logging_filter_matrix() {
    assert!(log_enabled(&Logging::Everything, &LogType::Information));
    assert!(log_enabled(&Logging::ErrorOnly, &LogType::Error));
    assert!(!log_enabled(&Logging::ErrorOnly, &LogType::Information));
    assert!(log_enabled(&Logging::WarningOnly, &LogType::Memory));
    assert!(log_enabled(&Logging::WarningOnly, &LogType::Performance));
    assert!(!log_enabled(&Logging::Nothing, &LogType::Error));
}

#[test]
fn mouse_and_bindings() {
    let mouse = Mouse::new();
    assert!(matches!(mouse.left, ButtonState::Idle));
    assert_eq!(mouse.position, (0, 0));
    // The button state machine: press, hold, release, rest.
    assert!(matches!(ButtonState::Idle.next(true), ButtonState::Pressed));
    assert!(matches!(ButtonState::Pressed.next(true), ButtonState::Held));
    assert!(matches!(ButtonState::Held.next(false), ButtonState::Released));
    assert!(matches!(ButtonState::Released.next(false), ButtonState::Idle));
    assert!(matches!(ButtonState::Released.next(true), ButtonState::Pressed));
    let binding = vec![KeyBind::Key(101), KeyBind::Mod(3)];
    assert!(KeyBindings::check_true(&binding, &vec![5, 101], &vec![]));
    assert!(KeyBindings::check_true(&binding, &vec![], &vec![3]));
    assert!(!KeyBindings::check_true(&binding, &vec![1], &vec![4]));
    assert!(contains_i32(&vec![4, 5], 5));
}

#[test]
fn font_blending_and_atlas() {
    assert_eq!(blend_channel(0, 255, 255), 255);
    assert_eq!(blend_channel(100, 200, 0), 100);
    assert_eq!(blend_channel(0, 200, 128), 100);
    let atlas: Vec<[u32; 64]> = get_texture_atlas::<70>("textures/font/", (8, 8));
    assert_eq!(atlas.len(), 70);
    assert!(atlas[65].iter().all(|&p| p == 0));
    // A glyph with one fully opaque red pixel lands at the buffer origin.
    let mut atlas = atlas;
    atlas[65][0] = 0xFF00_00FF;
    let mut pixels = vec![0u8; 3 * 8 * 24];
    render_font_unifont::<8, 64, 8>(&atlas, &mut pixels, (0, 0), (8, 24), 24, "A");
    assert_eq!(pixels[0], 255);
    assert_eq!(pixels[1], 0);
    // A space maps to glyph zero, which is empty here.
    let snapshot = pixels.clone();
    render_font_unifont::<8, 64, 8>(&atlas, &mut pixels, (0, 8), (8, 24), 24, " ");
    assert_eq!(pixels, snapshot);
}
