use wave_function_collapse::direction::Direction;
use wave_function_collapse::frequencies::Frequencies;
use wave_function_collapse::learn::add_adjacent_rules;
use wave_function_collapse::learn::cover_rule_tiles;
use wave_function_collapse::learn::generation_init;
use wave_function_collapse::learn::insert_rotated_rules;
use wave_function_collapse::learn::insert_rule_pair;
use wave_function_collapse::learn::update_frequencies;
use wave_function_collapse::rule::Rule;
use wave_function_collapse::rule_set::get_all_tile_types;
use wave_function_collapse::rule_set::RuleSet;
use wave_function_collapse::sample::Sample;
use wave_function_collapse::tile::coast_tile;
use wave_function_collapse::tile::grass_tile;
use wave_function_collapse::tile::water_tile;
use wave_function_collapse::tile::TileType;

fn sample_of(width: u32, height: u32, tiles: &[TileType]) -> Sample {
    let mut data: Vec<u8> = Vec::new();
    for tile in tiles {
        data.extend_from_slice(&tile.rgb);
    }
    Sample::new(width, height, 3, false, data).unwrap()
}

fn rule_keys(ruleset: &RuleSet) -> Vec<u64> {
    let mut keys: Vec<u64> = ruleset.to_vec().iter().map(|rule| rule.to_key()).collect();
    keys.sort();
    keys
}

fn keys_of(rules: &[Rule]) -> Vec<u64> {
    let mut keys: Vec<u64> = rules.iter().map(|rule| rule.to_key()).collect();
    keys.sort();
    keys.dedup();
    keys
}

#[test]
fn two_by_one_sample_learns_one_pair() {
    let sample = sample_of(2, 1, &[water_tile(), grass_tile()]);
    let generation = generation_init(&sample, false).unwrap();
    assert_eq!(generation.ruleset.len(), 2);
    assert!(generation
        .ruleset
        .contains(&Rule::new(water_tile(), grass_tile(), Direction::Right)));
    assert!(generation
        .ruleset
        .contains(&Rule::new(grass_tile(), water_tile(), Direction::Left)));
    for rule in generation.ruleset.to_vec() {
        assert_ne!(rule.direction, Direction::Up);
        assert_ne!(rule.direction, Direction::Down);
        assert_ne!(rule.from, rule.to);
    }
    assert_eq!(generation.frequencies.get(&water_tile()), Some(1));
    assert_eq!(generation.frequencies.get(&grass_tile()), Some(1));
    assert_eq!(generation.frequencies.get(&coast_tile()), None);
}

#[test]
fn one_by_two_sample_learns_the_vertical_pair() {
    let sample = sample_of(1, 2, &[water_tile(), grass_tile()]);
    let generation = generation_init(&sample, false).unwrap();
    assert_eq!(
        rule_keys(&generation.ruleset),
        keys_of(&[
            Rule::new(water_tile(), grass_tile(), Direction::Down),
            Rule::new(grass_tile(), water_tile(), Direction::Up),
        ])
    );
}

#[test]
fn rotated_rules_hold_in_every_direction() {
    let sample = sample_of(2, 1, &[water_tile(), grass_tile()]);
    let generation = generation_init(&sample, true).unwrap();
    assert_eq!(generation.ruleset.len(), 8);
    for direction in Direction::all() {
        assert!(generation
            .ruleset
            .contains(&Rule::new(water_tile(), grass_tile(), direction)));
        assert!(generation
            .ruleset
            .contains(&Rule::new(grass_tile(), water_tile(), direction)));
        assert!(!generation
            .ruleset
            .contains(&Rule::new(water_tile(), water_tile(), direction)));
    }
}

#[test]
fn one_pixel_sample_learns_no_rule() {
    let sample = sample_of(1, 1, &[water_tile()]);
    let generation = generation_init(&sample, true).unwrap();
    assert!(generation.ruleset.is_empty());
    assert_eq!(generation.frequencies.get(&water_tile()), Some(1));
    assert!(get_all_tile_types(&generation.ruleset).is_empty());
}

#[test]
fn empty_sample_learns_nothing() {
    let sample = Sample::new(0, 0, 3, false, vec![]).unwrap();
    let generation = generation_init(&sample, false).unwrap();
    assert!(generation.ruleset.is_empty());
    assert_eq!(generation.frequencies.get(&water_tile()), None);
    let no_rows = Sample::new(4, 0, 3, false, vec![]).unwrap();
    assert!(generation_init(&no_rows, true).unwrap().ruleset.is_empty());
}

#[test]
fn sample_without_colours_is_refused() {
    let grey = Sample::new(2, 2, 1, false, vec![1, 2, 3, 4]).unwrap();
    assert!(generation_init(&grey, false).is_none());
    assert!(generation_init(&grey, true).is_none());
    let two = Sample::new(1, 1, 2, true, vec![1, 2]).unwrap();
    assert!(generation_init(&two, false).is_none());
}

#[test]
fn empty_sample_without_colours_is_accepted() {
    let sample = Sample::new(0, 3, 1, false, vec![]).unwrap();
    assert!(generation_init(&sample, false).is_some());
}

#[test]
fn two_by_two_sample_learns_each_neighbour_pair() {
    let w = water_tile();
    let c = coast_tile();
    let g = grass_tile();
    // w c
    // c g
    let sample = sample_of(2, 2, &[w, c, c, g]);
    let generation = generation_init(&sample, false).unwrap();
    assert_eq!(
        rule_keys(&generation.ruleset),
        keys_of(&[
            Rule::new(w, c, Direction::Right),
            Rule::new(c, w, Direction::Left),
            Rule::new(w, c, Direction::Down),
            Rule::new(c, w, Direction::Up),
            Rule::new(c, g, Direction::Down),
            Rule::new(g, c, Direction::Up),
            Rule::new(c, g, Direction::Right),
            Rule::new(g, c, Direction::Left),
        ])
    );
    assert_eq!(generation.frequencies.get(&w), Some(1));
    assert_eq!(generation.frequencies.get(&c), Some(2));
    assert_eq!(generation.frequencies.get(&g), Some(1));
}

#[test]
fn learned_rules_hold_their_mirrors() {
    let w = water_tile();
    let c = coast_tile();
    let g = grass_tile();
    let sample = sample_of(3, 3, &[w, w, c, w, c, g, c, g, g]);
    for rotate in [false, true] {
        let generation = generation_init(&sample, rotate).unwrap();
        assert!(!generation.ruleset.is_empty());
        for rule in generation.ruleset.to_vec() {
            assert!(generation
                .ruleset
                .contains(&Rule::reverse(rule.from, rule.to, rule.direction)));
        }
    }
}

#[test]
fn every_rule_tile_has_a_frequency() {
    let w = water_tile();
    let c = coast_tile();
    let g = grass_tile();
    let sample = sample_of(3, 3, &[w, w, c, w, c, g, c, g, g]);
    let generation = generation_init(&sample, true).unwrap();
    let tiles = get_all_tile_types(&generation.ruleset).to_vec();
    assert_eq!(tiles.len(), 3);
    for tile in tiles {
        assert!(generation.frequencies.get(&tile).is_some());
    }
}

#[test]
fn frequencies_count_the_pixels() {
    let w = water_tile();
    let c = coast_tile();
    let g = grass_tile();
    let sample = sample_of(3, 3, &[w, w, c, w, c, g, c, g, g]);
    let generation = generation_init(&sample, false).unwrap();
    assert_eq!(generation.frequencies.get(&w), Some(3));
    assert_eq!(generation.frequencies.get(&c), Some(3));
    assert_eq!(generation.frequencies.get(&g), Some(3));
    assert_eq!(generation.frequencies.weight(&w), 3);
    assert_eq!(
        generation.frequencies.weight(&TileType { rgb: [9, 9, 9] }),
        0
    );
}

#[test]
fn rules_beyond_column_127_are_learned() {
    let mut tiles = vec![water_tile(); 130];
    tiles[129] = grass_tile();
    let sample = sample_of(130, 1, &tiles);
    let generation = generation_init(&sample, false).unwrap();
    assert!(generation
        .ruleset
        .contains(&Rule::new(water_tile(), grass_tile(), Direction::Right)));
    assert!(generation
        .ruleset
        .contains(&Rule::new(grass_tile(), water_tile(), Direction::Left)));
    assert!(!generation
        .ruleset
        .contains(&Rule::new(grass_tile(), grass_tile(), Direction::Right)));
    assert_eq!(generation.ruleset.len(), 4);
    assert_eq!(generation.frequencies.get(&water_tile()), Some(129));
}

#[test]
fn adjacent_rules_of_a_corner_pixel() {
    let w = water_tile();
    let c = coast_tile();
    let g = grass_tile();
    let sample = sample_of(2, 2, &[w, c, g, g]);
    let mut ruleset = RuleSet::new();
    add_adjacent_rules(&mut ruleset, &sample, 0, 0, false);
    assert_eq!(
        rule_keys(&ruleset),
        keys_of(&[
            Rule::new(w, c, Direction::Right),
            Rule::new(c, w, Direction::Left),
            Rule::new(w, g, Direction::Down),
            Rule::new(g, w, Direction::Up),
        ])
    );
}

#[test]
fn adjacent_rules_keep_what_was_there() {
    let w = water_tile();
    let c = coast_tile();
    let sample = sample_of(2, 1, &[w, c]);
    let kept = Rule::new(grass_tile(), grass_tile(), Direction::Up);
    let mut ruleset = RuleSet::from_rules(&vec![kept]);
    add_adjacent_rules(&mut ruleset, &sample, 1, 0, false);
    assert_eq!(ruleset.len(), 3);
    assert!(ruleset.contains(&kept));
    assert!(ruleset.contains(&Rule::new(c, w, Direction::Left)));
    assert!(ruleset.contains(&Rule::new(w, c, Direction::Right)));
}

#[test]
fn adjacent_rules_of_a_pixel_without_colour() {
    let sample = Sample::new(2, 1, 1, false, vec![1, 2]).unwrap();
    let mut ruleset = RuleSet::new();
    add_adjacent_rules(&mut ruleset, &sample, 0, 0, true);
    assert!(ruleset.is_empty());
}

#[test]
fn rule_pair_is_the_rule_and_its_mirror() {
    let mut ruleset = RuleSet::new();
    insert_rule_pair(&mut ruleset, water_tile(), coast_tile(), Direction::Up);
    assert_eq!(
        rule_keys(&ruleset),
        keys_of(&[
            Rule::new(water_tile(), coast_tile(), Direction::Up),
            Rule::new(coast_tile(), water_tile(), Direction::Down),
        ])
    );
}

#[test]
fn rotated_rules_of_one_tile_with_itself() {
    let mut ruleset = RuleSet::new();
    insert_rotated_rules(&mut ruleset, water_tile(), water_tile());
    assert_eq!(ruleset.len(), 4);
    for direction in Direction::all() {
        assert!(ruleset.contains(&Rule::new(water_tile(), water_tile(), direction)));
    }
}

#[test]
fn update_frequencies_counts_from_one() {
    let sample = sample_of(2, 1, &[water_tile(), water_tile()]);
    let mut frequencies = Frequencies::new();
    update_frequencies(&mut frequencies, &sample, 0, 0);
    assert_eq!(frequencies.get(&water_tile()), Some(1));
    update_frequencies(&mut frequencies, &sample, 1, 0);
    assert_eq!(frequencies.get(&water_tile()), Some(2));
}

#[test]
fn update_frequencies_saturates() {
    let sample = sample_of(1, 1, &[water_tile()]);
    let mut frequencies = Frequencies::new();
    frequencies.insert(water_tile(), u32::MAX - 1);
    update_frequencies(&mut frequencies, &sample, 0, 0);
    assert_eq!(frequencies.get(&water_tile()), Some(u32::MAX));
    update_frequencies(&mut frequencies, &sample, 0, 0);
    assert_eq!(frequencies.get(&water_tile()), Some(u32::MAX));
}

#[test]
fn update_frequencies_counts_up_from_zero() {
    let sample = sample_of(1, 1, &[water_tile()]);
    let mut frequencies = Frequencies::new();
    frequencies.insert(water_tile(), 0);
    update_frequencies(&mut frequencies, &sample, 0, 0);
    assert_eq!(frequencies.get(&water_tile()), Some(1));
}

#[test]
fn update_frequencies_skips_a_pixel_without_colour() {
    let sample = Sample::new(1, 1, 2, true, vec![1, 2]).unwrap();
    let mut frequencies = Frequencies::new();
    frequencies.insert(water_tile(), 4);
    update_frequencies(&mut frequencies, &sample, 0, 0);
    assert_eq!(frequencies.get(&water_tile()), Some(4));
    assert_eq!(frequencies.get(&TileType { rgb: [1, 2, 0] }), None);
}

#[test]
fn cover_gives_missing_rule_tiles_a_zero() {
    let ruleset = RuleSet::from_rules(&vec![Rule::new(
        water_tile(),
        coast_tile(),
        Direction::Up,
    )]);
    let mut frequencies = Frequencies::new();
    frequencies.insert(water_tile(), 7);
    frequencies.insert(grass_tile(), 2);
    cover_rule_tiles(&mut frequencies, &ruleset);
    assert_eq!(frequencies.get(&water_tile()), Some(7));
    assert_eq!(frequencies.get(&coast_tile()), Some(0));
    assert_eq!(frequencies.get(&grass_tile()), Some(2));
}

#[test]
fn frequencies_table_reads_back_what_was_set() {
    let mut frequencies = Frequencies::new();
    assert_eq!(frequencies.get(&water_tile()), None);
    assert_eq!(frequencies.weight(&water_tile()), 0);
    frequencies.insert(water_tile(), 3);
    frequencies.insert(water_tile(), 5);
    assert_eq!(frequencies.get(&water_tile()), Some(5));
    assert_eq!(frequencies.weight(&water_tile()), 5);
}
