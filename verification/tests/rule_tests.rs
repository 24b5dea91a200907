use wave_function_collapse::direction::Direction;
use wave_function_collapse::rule::Rule;
use wave_function_collapse::rule::RULE_KEY_LIMIT;
use wave_function_collapse::rule_set::get_all_tile_types;
use wave_function_collapse::rule_set::RuleSet;
use wave_function_collapse::tile::coast_tile;
use wave_function_collapse::tile::grass_tile;
use wave_function_collapse::tile::water_tile;
use wave_function_collapse::tile::TileType;

#[test]
fn new_rule_keeps_its_parts() {
    let rule = Rule::new(water_tile(), coast_tile(), Direction::Left);
    assert_eq!(rule.from, water_tile());
    assert_eq!(rule.to, coast_tile());
    assert_eq!(rule.direction, Direction::Left);
}

#[test]
fn reverse_swaps_tiles_and_turns_direction() {
    let rule = Rule::reverse(water_tile(), coast_tile(), Direction::Left);
    assert_eq!(rule.from, coast_tile());
    assert_eq!(rule.to, water_tile());
    assert_eq!(rule.direction, Direction::Right);
    assert_eq!(
        Rule::reverse(water_tile(), coast_tile(), Direction::Up),
        Rule::new(coast_tile(), water_tile(), Direction::Down)
    );
}

#[test]
fn reverse_of_reverse_is_the_rule() {
    for direction in Direction::all() {
        let rule = Rule::new(water_tile(), grass_tile(), direction);
        let back = Rule::reverse(rule.from, rule.to, rule.direction);
        assert_eq!(Rule::reverse(back.from, back.to, back.direction), rule);
    }
}

#[test]
fn rules_are_equal_by_their_parts() {
    let rule = Rule::new(water_tile(), coast_tile(), Direction::Up);
    assert_eq!(rule, Rule::new(water_tile(), coast_tile(), Direction::Up));
    assert_ne!(rule, Rule::new(water_tile(), coast_tile(), Direction::Down));
    assert_ne!(rule, Rule::new(coast_tile(), water_tile(), Direction::Up));
    assert_ne!(rule, Rule::new(water_tile(), grass_tile(), Direction::Up));
}

#[test]
fn rule_key_packs_tiles_and_direction() {
    let zero = TileType { rgb: [0, 0, 0] };
    let one = TileType { rgb: [0, 0, 1] };
    assert_eq!(Rule::new(zero, zero, Direction::Up).to_key(), 0);
    assert_eq!(Rule::new(zero, zero, Direction::Right).to_key(), 3);
    assert_eq!(Rule::new(zero, one, Direction::Up).to_key(), 4);
    assert_eq!(Rule::new(one, zero, Direction::Up).to_key(), 0x400_0000);
    let white = TileType { rgb: [255, 255, 255] };
    assert_eq!(
        Rule::new(white, white, Direction::Right).to_key(),
        RULE_KEY_LIMIT - 1
    );
}

#[test]
fn rule_key_round_trip() {
    for direction in Direction::all() {
        for rule in [
            Rule::new(water_tile(), coast_tile(), direction),
            Rule::new(coast_tile(), water_tile(), direction),
            Rule::new(grass_tile(), grass_tile(), direction),
        ] {
            assert_eq!(Rule::from_key(rule.to_key()), rule);
        }
    }
}

#[test]
fn rule_set_starts_empty() {
    let set = RuleSet::new();
    assert!(set.is_empty());
    assert_eq!(set.len(), 0);
    assert!(set.to_vec().is_empty());
}

#[test]
fn rule_set_holds_each_rule_once() {
    let mut set = RuleSet::new();
    let rule = Rule::new(water_tile(), coast_tile(), Direction::Up);
    assert!(set.insert(rule));
    assert!(!set.insert(rule));
    assert!(set.insert(Rule::new(water_tile(), coast_tile(), Direction::Down)));
    assert_eq!(set.len(), 2);
    assert!(set.contains(&rule));
    assert!(!set.contains(&Rule::new(coast_tile(), water_tile(), Direction::Up)));
    let mut keys: Vec<u64> = set.to_vec().iter().map(|rule| rule.to_key()).collect();
    keys.sort();
    keys.dedup();
    assert_eq!(keys.len(), 2);
}

#[test]
fn rule_set_from_a_list_drops_repeats() {
    let rule = Rule::new(water_tile(), coast_tile(), Direction::Up);
    let other = Rule::new(coast_tile(), water_tile(), Direction::Down);
    let set = RuleSet::from_rules(&vec![rule, other, rule]);
    assert_eq!(set.len(), 2);
    assert!(set.contains(&rule));
    assert!(set.contains(&other));
}

#[test]
fn all_tile_types_of_no_rules() {
    assert!(get_all_tile_types(&RuleSet::new()).is_empty());
}

#[test]
fn all_tile_types_come_from_both_ends() {
    let set = RuleSet::from_rules(&vec![
        Rule::new(water_tile(), coast_tile(), Direction::Up),
        Rule::new(water_tile(), water_tile(), Direction::Left),
        Rule::new(coast_tile(), grass_tile(), Direction::Down),
    ]);
    let tiles = get_all_tile_types(&set);
    assert_eq!(tiles.len(), 3);
    assert!(tiles.contains(&water_tile()));
    assert!(tiles.contains(&coast_tile()));
    assert!(tiles.contains(&grass_tile()));
}
