use tileworld::tile_map::TileMap;
use tileworld::tiles::{auto_tile_id, Family};
use tileworld::world_gen::{NoiseSamples, WorldGenerator};

fn flat_samples(w: usize, h: usize) -> NoiseSamples {
    NoiseSamples {
        biome: vec![0; w],
        dirt: vec![10000; 4 * w],
        land: vec![0; 4 * w * h],
        cave: vec![-10000; 4 * w * h],
        cave_threshold: vec![0; 4 * w * h],
    }
}

fn flat_world() -> TileMap {
    // A flat generator: grass at row five, four rows of dirt below it,
    // stone to the bottom, no caves.
    let generator = WorldGenerator { height_base: 5, height_span: 0, dirt_span: 4 };
    let mut map = TileMap::new(20, 20).unwrap();
    generator.generate_tile_map(&mut map, &flat_samples(20, 20)).unwrap();
    map
}

#[test]
fn auto_tile_table_all_sixteen_masks() {
    // The full grass table, one entry per neighbor-emptiness pattern
    // (left, right, up, down).
    let table: [((bool, bool, bool, bool), u32); 16] = [
        ((true, false, false, false), 7),
        ((false, true, false, false), 8),
        ((true, true, false, false), 10),
        ((false, false, true, false), 1),
        ((false, false, false, true), 47),
        ((false, false, true, true), 5),
        ((true, false, true, false), 2),
        ((true, false, false, true), 4),
        ((true, false, true, true), 13),
        ((false, true, false, true), 9),
        ((false, true, true, false), 3),
        ((false, true, true, true), 6),
        ((true, true, true, false), 11),
        ((true, true, false, true), 12),
        ((true, true, true, true), 14),
        ((false, false, false, false), 29),
    ];
    for ((l, r, u, d), expected) in table {
        assert_eq!(auto_tile_id(Family::Grass, l, r, u, d), expected);
    }
}

#[test]
fn auto_tile_offsets_hold_across_families() {
    let offsets = [
        (Family::Dirt, 14u32, 46u32, 29u32),
        (Family::Stone, 29, 45, 44),
        (Family::Sand, 88, 134, 117),
        (Family::SandStone, 102, 133, 117),
        (Family::Ice, 117, 136, 132),
        (Family::Snow, 136, 135, 29),
    ];
    for (family, offset, below, interior) in offsets {
        for mask in 0u32..16 {
            let l = mask & 1 != 0;
            let r = mask & 2 != 0;
            let u = mask & 4 != 0;
            let d = mask & 8 != 0;
            let got = auto_tile_id(family, l, r, u, d);
            if !l && !r && !u && d {
                assert_eq!(got, below);
            } else if !l && !r && !u && !d {
                assert_eq!(got, interior);
            } else {
                assert_eq!(got, auto_tile_id(Family::Grass, l, r, u, d) + offset);
            }
        }
    }
}

#[test]
fn flat_generation_layers_and_sky() {
    let map = flat_world();
    for x in 0..20 {
        for y in 0..5 {
            assert_eq!(map.get_tile(x, y, 0), 0);
        }
        assert_eq!(map.get_tile(x, 5, 0), 1);
        for y in 6..10 {
            assert_eq!(map.get_tile(x, y, 0), 29);
        }
        for y in 10..20 {
            assert_eq!(map.get_tile(x, y, 0), 44);
        }
        assert_eq!(map.get_sky_light(x), 5);
    }
}

#[test]
fn flat_generation_stamps_a_bush() {
    let map = flat_world();
    // Column ten is a bush column; the bush sits on the decoration layer
    // around the surface tile.
    assert_eq!(map.get_tile(10, 3, 1), 73);
    assert_eq!(map.get_tile(11, 3, 1), 74);
    assert_eq!(map.get_tile(12, 3, 1), 75);
    assert_eq!(map.get_tile(9, 4, 1), 78);
    assert_eq!(map.get_tile(10, 4, 1), 79);
    assert_eq!(map.get_tile(11, 4, 1), 80);
    assert_eq!(map.get_tile(12, 4, 1), 81);
    assert_eq!(map.get_tile(9, 5, 1), 84);
    assert_eq!(map.get_tile(10, 5, 1), 85);
    assert_eq!(map.get_tile(11, 5, 1), 86);
    assert_eq!(map.get_tile(12, 5, 1), 87);
    // Elsewhere the decoration layer is untouched.
    assert_eq!(map.get_tile(5, 5, 1), 0);
    assert_eq!(map.get_tile(15, 4, 1), 0);
}

#[test]
fn removing_a_surface_tile_retiles_its_neighbors() {
    let mut map = flat_world();
    map.change_tile(10, 5, 0, 0).unwrap();
    // The removed cell is empty.
    assert_eq!(map.get_tile(10, 5, 0), 0);
    // The lateral neighbors face the new opening (empty right-and-above,
    // and empty left-and-above, corner variants of the grass table).
    assert_eq!(map.get_tile(9, 5, 0), 3);
    assert_eq!(map.get_tile(11, 5, 0), 2);
    // The dirt below stays dirt: vertical-only exposure falls to the dirt
    // family's empty-above entry.
    assert_eq!(map.get_tile(10, 6, 0), 15);
    // The cell above was already empty and stays empty.
    assert_eq!(map.get_tile(10, 4, 0), 0);
    // An untouched surface tile keeps its variant.
    assert_eq!(map.get_tile(8, 5, 0), 1);
    // The column's sky-light height drops to the dirt below.
    assert_eq!(map.get_sky_light(10), 6);
}

#[test]
fn light_source_decays_by_steps_in_the_render_slice() {
    let mut map = TileMap::new(40, 40).unwrap();
    // Roof the world so no sky light reaches the depths.
    for x in 0..40 {
        map.change_tile(x, 0, 0, 44).unwrap();
    }
    for x in 0..40 {
        assert_eq!(map.get_sky_light(x), 0);
    }
    // Place the light block deep underground in an otherwise dark map.
    map.change_tile(5, 15, 0, 88).unwrap();
    let (tiles, visible) = map.get_render_slice(0, 0, 40, 40);
    assert_eq!(visible, (40, 40));
    assert_eq!(tiles.len(), 40 * 40);
    let light_at = |x: usize, y: usize| {
        let packed = tiles[y * 40 + x][3];
        ((packed & 0xFF) as u8, ((packed >> 8) & 0xFF) as u8, ((packed >> 16) & 0xFF) as u8)
    };
    // The source cell carries the table color.
    assert_eq!(light_at(5, 15), (255, 255, 128));
    // Each step away loses twenty-five per channel, floored at zero.
    for step in 1..12usize {
        let expect = |channel: u32| channel.saturating_sub(25 * step as u32) as u8;
        assert_eq!(light_at(5 + step, 15), (expect(255), expect(255), expect(128)));
    }
    assert_eq!(light_at(17, 15), (0, 0, 0));
    // The slice also reports the tile layers.
    assert_eq!(tiles[15 * 40 + 5][0], 88);
}

#[test]
fn render_slice_clamps_to_the_grid() {
    let mut map = TileMap::new(10, 8).unwrap();
    // A window larger than the grid clamps to the full grid.
    let (tiles, visible) = map.get_render_slice(5, 4, 100, 100);
    assert_eq!(visible, (10, 8));
    assert_eq!(tiles.len(), 80);
    // A camera far off the grid clamps the start and leaves nothing.
    let (tiles, visible) = map.get_render_slice(1000, 1000, 4, 4);
    assert_eq!(visible, (0, 0));
    assert_eq!(tiles.len(), 0);
    // A window in the interior keeps its requested size.
    let (tiles, visible) = map.get_render_slice(5, 4, 4, 4);
    assert_eq!(visible, (4, 4));
    assert_eq!(tiles.len() as u32, visible.0 * visible.1);
}

#[test]
fn render_slice_feeds_the_mini_map() {
    let mut map = TileMap::new(10, 8).unwrap();
    assert!(map.mini_map.lighting.iter().all(|&v| v == 0));
    // A window over the top-left corner visits only those cells; the open
    // sky lights them fully, and unvisited cells stay dark.
    let (_, visible) = map.get_render_slice(0, 0, 2, 2);
    assert_eq!(visible, (2, 2));
    assert_eq!(map.mini_map.lighting[0], 765);
    assert_eq!(map.mini_map.lighting[1 * 10 + 1], 765);
    assert_eq!(map.mini_map.lighting[5 * 10 + 5], 0);
    // The accumulator keeps the maximum ever observed.
    let _ = map.get_render_slice(0, 0, 100, 100);
    assert_eq!(map.mini_map.lighting[5 * 10 + 5], 765);
    assert_eq!(map.mini_map.lighting[0], 765);
}

#[test]
fn construction_with_a_generator_runs_it_once() {
    let generator = WorldGenerator { height_base: 5, height_span: 0, dirt_span: 4 };
    let map =
        TileMap::new_with_generator(20, 20, Some(&generator), &flat_samples(20, 20)).unwrap();
    assert_eq!(map.get_tile(3, 5, 0), 1);
    assert_eq!(map.get_tile(3, 11, 0), 44);
    let bare = TileMap::new_with_generator(20, 20, None, &flat_samples(20, 20)).unwrap();
    assert_eq!(bare.get_tile(3, 5, 0), 0);
    assert!(TileMap::new_with_generator(0, 20, None, &flat_samples(20, 20)).is_err());
}

#[test]
fn standard_generator_parameters() {
    let generator = WorldGenerator::new();
    assert_eq!(generator.height_base, 100);
    assert_eq!(generator.height_span, 50);
    assert_eq!(generator.dirt_span, 10);
    // On a grid shallower than the surface depth everything stays open sky.
    let mut map = TileMap::new(12, 12).unwrap();
    generator.generate_tile_map(&mut map, &flat_samples(12, 12)).unwrap();
    for x in 0..12 {
        for y in 0..12 {
            assert_eq!(map.get_tile(x, y, 0), 0);
        }
        // A column with no solid tile records the grid height.
        assert_eq!(map.get_sky_light(x), 12);
    }
}
