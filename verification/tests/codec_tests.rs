use tileworld::codec::{decode_tile_map, encode_tile_map};
use tileworld::tile_map::TileMap;

fn populated_map() -> TileMap {
    let mut map = TileMap::new(12, 9).unwrap();
    map.change_tile(2, 3, 0, 44).unwrap();
    map.change_tile(5, 5, 0, 88).unwrap();
    map.change_tile(7, 2, 1, 73).unwrap();
    map.add_entity_light(String::from("player"), (40, 36), (255, 240, 220, 1500));
    map.add_entity_light(String::from("f\u{e9}e"), (-8, 100), (120, 130, 140, 900));
    // A render pass populates the mini-map accumulator.
    let _ = map.get_render_slice(6, 4, 100, 100);
    map
}

#[test]
fn round_trip_reproduces_every_field() {
    let map = populated_map();
    let bytes = encode_tile_map(&map);
    let back = decode_tile_map(&bytes).unwrap();
    assert_eq!(back.get_map_width(), map.get_map_width());
    assert_eq!(back.get_map_height(), map.get_map_height());
    for y in 0..9 {
        for x in 0..12 {
            for layer in 0..3 {
                assert_eq!(back.get_tile(x, y, layer), map.get_tile(x, y, layer));
                assert_eq!(back.get_light(x, y, layer), map.get_light(x, y, layer));
            }
            assert_eq!(
                back.mini_map.lighting[y * 12 + x],
                map.mini_map.lighting[y * 12 + x]
            );
        }
    }
    for x in 0..12 {
        assert_eq!(back.get_sky_light(x), map.get_sky_light(x));
    }
    assert_eq!(back.entity_lights.len(), 2);
    for i in 0..2 {
        assert_eq!(back.entity_lights[i].0, map.entity_lights[i].0);
        assert_eq!(back.entity_lights[i].1.position, map.entity_lights[i].1.position);
        assert_eq!(back.entity_lights[i].1.color, map.entity_lights[i].1.color);
    }
}

#[test]
fn round_trip_of_a_fresh_map() {
    let map = TileMap::new(3, 3).unwrap();
    let bytes = encode_tile_map(&map);
    let back = decode_tile_map(&bytes).unwrap();
    assert_eq!(back.get_map_width(), 3);
    assert_eq!(back.get_map_height(), 3);
    assert!(back.entity_lights.is_empty());
}

#[test]
fn decode_rejects_malformed_bytes() {
    // A stream whose length is no whole number of words.
    assert!(decode_tile_map(&vec![1, 2, 3]).is_none());
    // A stream too short for a header.
    assert!(decode_tile_map(&vec![0; 8]).is_none());
    // A zero dimension.
    assert!(decode_tile_map(&vec![0; 16]).is_none());
    // A truncated encoding.
    let map = populated_map();
    let mut bytes = encode_tile_map(&map);
    bytes.truncate(bytes.len() - 8);
    assert!(decode_tile_map(&bytes).is_none());
    // A corrupted name byte (a word no byte can hold).
    let map2 = TileMap::new(2, 2).unwrap();
    let mut map2 = map2;
    map2.add_entity_light(String::from("a"), (0, 0), (1, 2, 3, 4));
    let mut bytes2 = encode_tile_map(&map2);
    let name_byte_word = bytes2.len() - 7 * 8;
    bytes2[name_byte_word + 1] = 0xFF;
    assert!(decode_tile_map(&bytes2).is_none());
}

#[test]
fn decode_rebuilds_a_non_ascii_name_exactly() {
    // The name's UTF-8 bytes travel through the encoding and come back as
    // the same string; a copied byte stream with the bytes swapped for an
    // invalid sequence is rejected instead of giving any string back.
    let mut map = TileMap::new(2, 2).unwrap();
    map.add_entity_light(String::from("\u{1F326}\u{fe0f} rain"), (1, 2), (3, 4, 5, 6));
    let bytes = encode_tile_map(&map);
    let back = decode_tile_map(&bytes).unwrap();
    assert_eq!(back.entity_lights[0].0, String::from("\u{1F326}\u{fe0f} rain"));
}
