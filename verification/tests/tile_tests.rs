use wave_function_collapse::direction::Direction;
use wave_function_collapse::sample::Sample;
use wave_function_collapse::tile::coast_tile;
use wave_function_collapse::tile::grass_tile;
use wave_function_collapse::tile::invalid_tile;
use wave_function_collapse::tile::water_tile;
use wave_function_collapse::tile::TileType;
use wave_function_collapse::tile::TILE_KEY_LIMIT;
use wave_function_collapse::tile_set::TileSet;

#[test]
fn named_tiles_have_their_colours() {
    assert_eq!(invalid_tile().rgb, [255, 0, 0]);
    assert_eq!(water_tile().rgb, [63, 72, 204]);
    assert_eq!(coast_tile().rgb, [255, 201, 14]);
    assert_eq!(grass_tile().rgb, [34, 177, 76]);
}

#[test]
fn tiles_are_equal_by_colour() {
    assert_eq!(TileType { rgb: [1, 2, 3] }, TileType { rgb: [1, 2, 3] });
    assert_ne!(TileType { rgb: [1, 2, 3] }, TileType { rgb: [1, 2, 4] });
    assert_ne!(TileType { rgb: [1, 2, 3] }, TileType { rgb: [1, 3, 3] });
    assert_ne!(TileType { rgb: [1, 2, 3] }, TileType { rgb: [0, 2, 3] });
}

#[test]
fn key_is_the_big_endian_colour() {
    assert_eq!(TileType { rgb: [0, 0, 0] }.to_key(), 0);
    assert_eq!(TileType { rgb: [0, 0, 1] }.to_key(), 1);
    assert_eq!(TileType { rgb: [0, 1, 0] }.to_key(), 256);
    assert_eq!(TileType { rgb: [1, 0, 0] }.to_key(), 65536);
    assert_eq!(water_tile().to_key(), 0x3f48cc);
    assert_eq!(TileType { rgb: [255, 255, 255] }.to_key(), TILE_KEY_LIMIT - 1);
}

#[test]
fn key_round_trip() {
    for tile in [
        invalid_tile(),
        water_tile(),
        coast_tile(),
        grass_tile(),
        TileType { rgb: [0, 0, 0] },
        TileType { rgb: [255, 255, 255] },
    ] {
        assert_eq!(TileType::from_key(tile.to_key()), tile);
    }
    assert_eq!(TileType::from_key(0x010203), TileType { rgb: [1, 2, 3] });
}

#[test]
fn sample_needs_exactly_its_values() {
    assert!(Sample::new(2, 1, 3, false, vec![0; 6]).is_some());
    assert!(Sample::new(2, 1, 3, false, vec![0; 5]).is_none());
    assert!(Sample::new(2, 1, 3, false, vec![0; 7]).is_none());
    assert!(Sample::new(0, 0, 3, false, vec![]).is_some());
    assert!(Sample::new(0, 5, 3, false, vec![]).is_some());
    assert!(Sample::new(1, 1, 0, false, vec![]).is_some());
    assert!(Sample::new(1, 1, 0, false, vec![9]).is_none());
}

#[test]
fn sample_rejects_more_pixels_than_32_bits_index() {
    assert!(Sample::new(65536, 65536, 0, false, vec![]).is_none());
    assert!(Sample::new(u32::MAX, u32::MAX, 0, false, vec![]).is_none());
    assert!(Sample::new(65535, 65537, 0, false, vec![]).is_some());
}

#[test]
fn sample_reports_its_dimensions() {
    let sample = Sample::new(3, 2, 3, false, vec![0; 18]).unwrap();
    assert_eq!(sample.dimensions(), (3, 2));
}

#[test]
fn sample_hands_out_each_pixel() {
    let data: Vec<u8> = (0..18).collect();
    let sample = Sample::new(3, 2, 3, false, data).unwrap();
    assert_eq!(sample.get_pixel(0, 0), &[0, 1, 2]);
    assert_eq!(sample.get_pixel(2, 0), &[6, 7, 8]);
    assert_eq!(sample.get_pixel(0, 1), &[9, 10, 11]);
    assert_eq!(sample.get_pixel(2, 1), &[15, 16, 17]);
}

#[test]
fn from_pixel_reads_three_channels() {
    let data: Vec<u8> = vec![63, 72, 204, 34, 177, 76];
    let sample = Sample::new(2, 1, 3, false, data).unwrap();
    assert_eq!(TileType::from_pixel(&sample, 0, 0), Some(water_tile()));
    assert_eq!(TileType::from_pixel(&sample, 1, 0), Some(grass_tile()));
}

#[test]
fn from_pixel_takes_the_first_three_of_four_channels() {
    let data: Vec<u8> = vec![63, 72, 204, 255, 34, 177, 76, 128];
    let sample = Sample::new(1, 2, 4, true, data).unwrap();
    assert_eq!(TileType::from_pixel(&sample, 0, 0), Some(water_tile()));
    assert_eq!(TileType::from_pixel(&sample, 0, 1), Some(grass_tile()));
}

#[test]
fn from_pixel_fails_on_fewer_than_three_channels() {
    let sample = Sample::new(2, 1, 2, true, vec![1, 2, 3, 4]).unwrap();
    assert_eq!(TileType::from_pixel(&sample, 0, 0), None);
    assert_eq!(TileType::from_pixel(&sample, 1, 0), None);
    let grey = Sample::new(1, 1, 1, false, vec![7]).unwrap();
    assert_eq!(TileType::from_pixel(&grey, 0, 0), None);
}

#[test]
fn neighbor_stays_inside_the_sample() {
    let sample = Sample::new(2, 3, 3, false, vec![0; 18]).unwrap();
    assert_eq!(sample.neighbor(0, 0, Direction::Up), None);
    assert_eq!(sample.neighbor(0, 0, Direction::Left), None);
    assert_eq!(sample.neighbor(0, 0, Direction::Right), Some((1, 0)));
    assert_eq!(sample.neighbor(0, 0, Direction::Down), Some((0, 1)));
    assert_eq!(sample.neighbor(1, 2, Direction::Right), None);
    assert_eq!(sample.neighbor(1, 2, Direction::Down), None);
    assert_eq!(sample.neighbor(1, 2, Direction::Up), Some((1, 1)));
    assert_eq!(sample.neighbor(1, 2, Direction::Left), Some((0, 2)));
}

#[test]
fn tile_set_starts_empty() {
    let set = TileSet::new();
    assert!(set.is_empty());
    assert_eq!(set.len(), 0);
    assert!(!set.contains(&water_tile()));
    assert!(set.to_vec().is_empty());
}

#[test]
fn tile_set_holds_each_tile_once() {
    let mut set = TileSet::new();
    assert!(set.insert(water_tile()));
    assert!(set.insert(grass_tile()));
    assert!(!set.insert(water_tile()));
    assert_eq!(set.len(), 2);
    assert!(!set.is_empty());
    assert!(set.contains(&water_tile()));
    assert!(set.contains(&grass_tile()));
    assert!(!set.contains(&coast_tile()));
    let mut tiles = set.to_vec();
    tiles.sort_by_key(|tile| tile.to_key());
    assert_eq!(tiles, vec![grass_tile(), water_tile()]);
}

#[test]
fn tile_set_from_a_list_drops_repeats() {
    let set = TileSet::from_tiles(&vec![water_tile(), coast_tile(), water_tile()]);
    assert_eq!(set.len(), 2);
    assert!(set.contains(&water_tile()));
    assert!(set.contains(&coast_tile()));
    assert!(!set.contains(&grass_tile()));
}

#[test]
fn tile_set_clone_is_independent() {
    let mut set = TileSet::from_tiles(&vec![water_tile(), coast_tile()]);
    let copy = set.clone();
    set.insert(grass_tile());
    assert_eq!(copy.len(), 2);
    assert!(copy.contains(&water_tile()));
    assert!(copy.contains(&coast_tile()));
    assert!(!copy.contains(&grass_tile()));
    assert_eq!(set.len(), 3);
}
