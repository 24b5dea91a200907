//! Learning adjacency rules and tile frequencies from a sample image.

use vstd::prelude::*;
use crate::direction::Direction;
use crate::frequencies::saturating_succ;
use crate::frequencies::weight_of;
use crate::frequencies::Frequencies;
use crate::rule::Rule;
use crate::rule_set::get_all_tile_types;
use crate::rule_set::symmetric;
use crate::rule_set::tiles_of;
use crate::rule_set::RuleSet;
use crate::sample::Sample;
use crate::scan::scanned;
use crate::tile::TileType;
use crate::walk::lemma_take_one_more;

verus! {

/// What was learned from a sample: the rules and the frequencies that a
/// synthesis run reads.
#[derive(Debug)]
pub struct Generation {
    pub ruleset: RuleSet,
    pub frequencies: Frequencies,
}

impl Generation {
    /// Whether the rules hold the mirror of each of their rules, and the
    /// frequencies have an entry for every tile type that occurs in a rule.
    pub open spec fn well_formed(self) -> bool {
        &&& symmetric(self.ruleset@)
        &&& forall|tile: TileType| #[trigger]
            tiles_of(self.ruleset@).contains(tile) ==> self.frequencies@.contains_key(tile)
    }
}

/// Whether the pixel in column `x` of row `y` has tile type `from` and its
/// neighbour in `direction` lies inside the image and has tile type `to`.
pub open spec fn adjacent(
    image: Sample,
    x: int,
    y: int,
    direction: Direction,
    from: TileType,
    to: TileType,
) -> bool {
    &&& image.contains(x, y)
    &&& image.contains(direction.step(x, y).0, direction.step(x, y).1)
    &&& image.tile(x, y) == Some(from)
    &&& image.tile(direction.step(x, y).0, direction.step(x, y).1) == Some(to)
}

/// Whether a visit of the pixel in column `x` of row `y` records `rule` for
/// its neighbour in `direction`: the rule from the pixel to the neighbour, or
/// its mirror. With `rotate` the rule may have any direction.
pub open spec fn records(
    image: Sample,
    x: int,
    y: int,
    direction: Direction,
    rotate: bool,
    rule: Rule,
) -> bool {
    ||| adjacent(image, x, y, direction, rule.from, rule.to) && (rotate || rule.direction
        == direction)
    ||| adjacent(image, x, y, direction, rule.to, rule.from) && (rotate || rule.direction
        == direction.opposite())
}

/// The rules that a visit of the pixel in column `x` of row `y` records.
pub open spec fn rules_at(image: Sample, x: int, y: int, rotate: bool) -> Set<Rule> {
    Set::new(
        |rule: Rule|
            exists|direction: Direction| records(image, x, y, direction, rotate, rule),
    )
}

/// With every rule that a visit records it records the mirror.
pub proof fn lemma_rules_at_symmetric(image: Sample, x: int, y: int, rotate: bool)
    ensures
        symmetric(rules_at(image, x, y, rotate)),
{
    assert forall|rule: Rule| #[trigger]
        rules_at(image, x, y, rotate).contains(rule) implies rules_at(
        image,
        x,
        y,
        rotate,
    ).contains(rule.mirror()) by {
        let direction = choose|direction: Direction|
            records(image, x, y, direction, rotate, rule);
        assert(records(image, x, y, direction, rotate, rule.mirror()));
    }
}

/// The rules of a pair of tile types in one direction: the rule and its
/// mirror.
pub open spec fn rule_pair(from: TileType, to: TileType, direction: Direction) -> Set<Rule> {
    set![Rule { from, to, direction }, Rule { from, to, direction }.mirror()]
}

/// Adds the rule from `from` to `to` in `direction`, and its mirror.
pub fn insert_rule_pair(ruleset: &mut RuleSet, from: TileType, to: TileType, direction: Direction)
    ensures
        final(ruleset)@ == old(ruleset)@.union(rule_pair(from, to, direction)),
        symmetric(old(ruleset)@) ==> symmetric(final(ruleset)@),
{
    ruleset.insert(Rule::new(from, to, direction));
    ruleset.insert(Rule::reverse(from, to, direction));
    assert(symmetric(rule_pair(from, to, direction)));
}

/// The rules of a pair of tile types in all four directions: every rule from
/// one of the two to the other.
pub open spec fn rotated_rules(from: TileType, to: TileType) -> Set<Rule> {
    Set::new(
        |rule: Rule| (rule.from == from && rule.to == to) || (rule.from == to && rule.to == from),
    )
}

/// Adds the rules from `from` to `to` and their mirrors in all four
/// directions.
pub fn insert_rotated_rules(ruleset: &mut RuleSet, from: TileType, to: TileType)
    ensures
        final(ruleset)@ == old(ruleset)@.union(rotated_rules(from, to)),
        symmetric(old(ruleset)@) ==> symmetric(final(ruleset)@),
{
    let directions = Direction::all();
    let mut i: usize = 0;
    while i < 4
        invariant
            i <= 4,
            forall|k: int| 0 <= k < 4 ==> (#[trigger] directions[k]).index() == k,
            forall|rule: Rule|
                ruleset@.contains(rule) <==> old(ruleset)@.contains(rule) || exists|
                    direction: Direction,
                |
                    direction.index() < i && #[trigger] rule_pair(from, to, direction).contains(
                        rule,
                    ),
        decreases 4 - i,
    {
        insert_rule_pair(ruleset, from, to, directions[i]);
        i += 1;
    }
    proof {
        let all = rotated_rules(from, to);
        assert forall|rule: Rule| all.contains(rule) implies ruleset@.contains(rule) by {
            if rule.from == from && rule.to == to {
                assert(rule_pair(from, to, rule.direction).contains(rule));
            } else {
                assert(rule_pair(from, to, rule.direction.opposite()).contains(rule));
            }
        }
        assert(ruleset@ =~= old(ruleset)@.union(all));
    }
}

/// Records the rules between the pixel in column `x` of row `y` and each of
/// its neighbours inside the image. A pixel without a tile type records
/// nothing.
pub fn add_adjacent_rules(
    ruleset: &mut RuleSet,
    image: &Sample,
    x: u32,
    y: u32,
    rotate_rules: bool,
)
    requires
        image.contains(x as int, y as int),
    ensures
        final(ruleset)@ == old(ruleset)@.union(
            rules_at(*image, x as int, y as int, rotate_rules),
        ),
        symmetric(old(ruleset)@) ==> symmetric(final(ruleset)@),
{
    proof {
        lemma_rules_at_symmetric(*image, x as int, y as int, rotate_rules);
    }
    let from = match TileType::from_pixel(image, x, y) {
        Some(tile) => tile,
        None => {
            return ;
        },
    };
    let directions = Direction::all();
    let mut i: usize = 0;
    while i < 4
        invariant
            i <= 4,
            image.contains(x as int, y as int),
            image.tile(x as int, y as int) == Some(from),
            forall|k: int| 0 <= k < 4 ==> (#[trigger] directions[k]).index() == k,
            forall|rule: Rule|
                ruleset@.contains(rule) <==> old(ruleset)@.contains(rule) || exists|
                    direction: Direction,
                |
                    direction.index() < i && records(
                        *image,
                        x as int,
                        y as int,
                        direction,
                        rotate_rules,
                        rule,
                    ),
        decreases 4 - i,
    {
        let ghost before = ruleset@;
        let direction = directions[i];
        match image.neighbor(x, y, direction) {
            Some((stepped_x, stepped_y)) => {
                match TileType::from_pixel(image, stepped_x, stepped_y) {
                    Some(to) => {
                        insert_rule_pair(ruleset, from, to, direction);
                        if rotate_rules {
                            insert_rotated_rules(ruleset, from, to);
                        }
                        assert(forall|rule: Rule|
                            ruleset@.contains(rule) <==> before.contains(rule) || records(
                                *image,
                                x as int,
                                y as int,
                                direction,
                                rotate_rules,
                                rule,
                            ));
                    },
                    None => {
                        proof {
                            use_type_invariant(image);
                            image.lemma_pixel_len(x as int, y as int);
                            image.lemma_pixel_len(stepped_x as int, stepped_y as int);
                        }
                        return ;
                    },
                }
            },
            None => {},
        }
        i += 1;
    }
}

/// How many of the first `x` pixels of row `y` have tile type `tile`.
pub open spec fn seen_in_row(image: Sample, tile: TileType, y: int, x: nat) -> nat
    decreases x,
{
    if x == 0 {
        0
    } else {
        seen_in_row(image, tile, y, (x - 1) as nat) + if image.tile(x - 1, y) == Some(tile) {
            1nat
        } else {
            0nat
        }
    }
}

/// How many pixels of the first `y` rows have tile type `tile`.
pub open spec fn seen_in_rows(image: Sample, tile: TileType, y: nat) -> nat
    decreases y,
{
    if y == 0 {
        0
    } else {
        seen_in_rows(image, tile, (y - 1) as nat) + seen_in_row(image, tile, y - 1, image.width())
    }
}

/// How many pixels have tile type `tile` among those that a scan row by row
/// visits before it comes to column `x` of row `y`.
pub open spec fn seen_before(image: Sample, tile: TileType, x: nat, y: nat) -> nat {
    seen_in_rows(image, tile, y) + seen_in_row(image, tile, y as int, x)
}

/// How many pixels of the image have tile type `tile`.
pub open spec fn occurrences(image: Sample, tile: TileType) -> nat {
    seen_in_rows(image, tile, image.height())
}

/// Among the first `x` pixels of a row no tile type is seen more than `x`
/// times, and none is seen less often than among the first `before` of them.
pub proof fn lemma_seen_in_row(image: Sample, tile: TileType, y: int, before: nat, x: nat)
    requires
        before <= x,
    ensures
        seen_in_row(image, tile, y, before) <= seen_in_row(image, tile, y, x) <= x,
        before < x && image.tile(before as int, y) == Some(tile) ==> seen_in_row(
            image,
            tile,
            y,
            x,
        ) > 0,
    decreases x,
{
    if before < x {
        lemma_seen_in_row(image, tile, y, before, (x - 1) as nat);
    }
    if x > 0 {
        lemma_seen_in_row(image, tile, y, 0, (x - 1) as nat);
    }
}

/// Among the first `y` rows no tile type is seen more often than they have
/// pixels, and none is seen less often than among the first `before` of them.
pub proof fn lemma_seen_in_rows(image: Sample, tile: TileType, before: nat, y: nat)
    requires
        before <= y,
    ensures
        seen_in_rows(image, tile, before) <= seen_in_rows(image, tile, y) <= y * image.width(),
        before < y ==> seen_in_rows(image, tile, before) + seen_in_row(
            image,
            tile,
            before as int,
            image.width(),
        ) <= seen_in_rows(image, tile, y),
    decreases y,
{
    if before < y {
        lemma_seen_in_rows(image, tile, before, (y - 1) as nat);
    }
    if y > 0 {
        lemma_seen_in_rows(image, tile, 0, (y - 1) as nat);
        lemma_seen_in_row(image, tile, y - 1, 0, image.width());
        assert((y - 1) * image.width() + image.width() == y * image.width())
            by (nonlinear_arith);
    }
}

/// A tile type that some pixel has occurs at least once, and no tile type
/// occurs more often than the image has pixels.
pub proof fn lemma_occurrences(image: Sample, tile: TileType)
    ensures
        occurrences(image, tile) <= image.width() * image.height(),
        forall|x: int, y: int|
            image.contains(x, y) && #[trigger] image.tile(x, y) == Some(tile) ==> occurrences(
                image,
                tile,
            ) > 0,
{
    lemma_seen_in_rows(image, tile, 0, image.height());
    assert(image.height() * image.width() == image.width() * image.height())
        by (nonlinear_arith);
    assert forall|x: int, y: int|
        image.contains(x, y) && #[trigger] image.tile(x, y) == Some(tile) implies occurrences(
        image,
        tile,
    ) > 0 by {
        lemma_seen_in_row(image, tile, y, x as nat, image.width());
        lemma_seen_in_rows(image, tile, y as nat, image.height());
    }
}

/// Counts the pixel in column `x` of row `y`: the count of its tile type
/// grows by one, and stays where it is the largest that fits. A pixel
/// without a tile type counts for nothing.
pub fn update_frequencies(frequencies: &mut Frequencies, image: &Sample, x: u32, y: u32)
    requires
        image.contains(x as int, y as int),
    ensures
        final(frequencies)@ == match image.tile(x as int, y as int) {
            Some(tile) => old(frequencies)@.insert(
                tile,
                saturating_succ(weight_of(old(frequencies)@, tile)),
            ),
            None => old(frequencies)@,
        },
{
    let tile = match TileType::from_pixel(image, x, y) {
        Some(tile) => tile,
        None => {
            return ;
        },
    };
    match frequencies.get(&tile) {
        None => {
            frequencies.insert(tile, 1);
        },
        Some(count) => {
            let counted: u32 = match count.checked_add(1) {
                Some(next) => next,
                None => u32::MAX,
            };
            frequencies.insert(tile, counted);
        },
    }
}

/// A table of frequencies with an entry for each of `tiles`: the entries it
/// had, and a count of 0 for each tile type that had none.
pub open spec fn covered(frequencies: Map<TileType, u32>, tiles: Set<TileType>) -> Map<
    TileType,
    u32,
> {
    Map::new(
        |tile: TileType| frequencies.contains_key(tile) || tiles.contains(tile),
        |tile: TileType|
            if frequencies.contains_key(tile) {
                frequencies[tile]
            } else {
                0u32
            },
    )
}

/// Gives every tile type that occurs in a rule an entry in the table of
/// frequencies: a count of 0 where it had none.
pub fn cover_rule_tiles(frequencies: &mut Frequencies, ruleset: &RuleSet)
    ensures
        final(frequencies)@ == covered(old(frequencies)@, tiles_of(ruleset@)),
        forall|tile: TileType|
            tiles_of(ruleset@).contains(tile) ==> final(frequencies)@.contains_key(tile),
{
    let tiles = get_all_tile_types(ruleset).to_vec();
    let mut i: usize = 0;
    while i < tiles.len()
        invariant
            i <= tiles.len(),
            frequencies@ == covered(old(frequencies)@, tiles@.take(i as int).to_set()),
        decreases tiles.len() - i,
    {
        let tile = tiles[i];
        if frequencies.get(&tile).is_none() {
            frequencies.insert(tile, 0);
        }
        proof {
            lemma_take_one_more(tiles@, i as int);
        }
        i += 1;
    }
    assert(tiles@.take(tiles@.len() as int) == tiles@);
}

/// The rules that a sample teaches: a rule for every pixel and each of its
/// neighbours inside the image, from the pixel's tile type to the
/// neighbour's, in the direction of the neighbour or, with `rotate`, in every
/// direction.
pub open spec fn learned_rules(image: Sample, rotate: bool) -> Set<Rule> {
    Set::new(
        |rule: Rule|
            exists|x: int, y: int, direction: Direction|
                #[trigger] adjacent(image, x, y, direction, rule.from, rule.to) && (rotate
                    || direction == rule.direction),
    )
}

/// The rules recorded by the visits that a scan row by row makes before it
/// comes to column `until_x` of row `until_y`.
pub open spec fn rules_before(image: Sample, rotate: bool, until_x: int, until_y: int) -> Set<
    Rule,
> {
    Set::new(
        |rule: Rule|
            exists|x: int, y: int, direction: Direction|
                scanned(x, y, until_x, until_y) && #[trigger] records(
                    image,
                    x,
                    y,
                    direction,
                    rotate,
                    rule,
                ),
    )
}

/// Two pixels are neighbours in one direction exactly if they are
/// neighbours, the other way round, in the opposite direction.
pub proof fn lemma_adjacent_mirror(
    image: Sample,
    x: int,
    y: int,
    direction: Direction,
    from: TileType,
    to: TileType,
)
    requires
        adjacent(image, x, y, direction, from, to),
    ensures
        adjacent(
            image,
            direction.step(x, y).0,
            direction.step(x, y).1,
            direction.opposite(),
            to,
            from,
        ),
{
    direction.lemma_step_back(x, y);
}

/// With every learned rule its mirror is learned too.
pub proof fn lemma_learned_rules_symmetric(image: Sample, rotate: bool)
    ensures
        symmetric(learned_rules(image, rotate)),
{
    assert forall|rule: Rule| #[trigger]
        learned_rules(image, rotate).contains(rule) implies learned_rules(image, rotate).contains(
        rule.mirror(),
    ) by {
        let (x, y, direction) = choose|x: int, y: int, direction: Direction|
            #[trigger] adjacent(image, x, y, direction, rule.from, rule.to) && (rotate
                || direction == rule.direction);
        lemma_adjacent_mirror(image, x, y, direction, rule.from, rule.to);
        let step = direction.step(x, y);
        let mirror = rule.mirror();
        assert(adjacent(image, step.0, step.1, direction.opposite(), mirror.from, mirror.to) && (
        rotate || direction.opposite() == mirror.direction));
    }
}

/// Every tile type of a learned rule occurs in the sample.
pub proof fn lemma_learned_tiles_occur(image: Sample, rotate: bool)
    ensures
        forall|tile: TileType| #[trigger]
            tiles_of(learned_rules(image, rotate)).contains(tile) ==> occurrences(image, tile)
                > 0,
{
    assert forall|tile: TileType| #[trigger]
        tiles_of(learned_rules(image, rotate)).contains(tile) implies occurrences(image, tile)
        > 0 by {
        let rule = choose|rule: Rule| #[trigger]
            learned_rules(image, rotate).contains(rule) && (rule.from == tile || rule.to
                == tile);
        let (x, y, direction) = choose|x: int, y: int, direction: Direction|
            #[trigger] adjacent(image, x, y, direction, rule.from, rule.to) && (rotate
                || direction == rule.direction);
        let step = direction.step(x, y);
        assert(image.tile(x, y) == Some(rule.from));
        assert(image.tile(step.0, step.1) == Some(rule.to));
        lemma_occurrences(image, tile);
    }
}

/// Once the scan has visited every pixel, it has recorded the learned rules
/// and no others.
pub proof fn lemma_rules_after_scan(image: Sample, rotate: bool)
    ensures
        rules_before(image, rotate, 0, image.height() as int) == learned_rules(image, rotate),
{
    let height = image.height() as int;
    assert forall|rule: Rule| rules_before(image, rotate, 0, height).contains(
        rule,
    ) implies learned_rules(image, rotate).contains(rule) by {
        let (x, y, direction) = choose|x: int, y: int, direction: Direction|
            scanned(x, y, 0, height) && #[trigger] records(image, x, y, direction, rotate, rule);
        if !adjacent(image, x, y, direction, rule.from, rule.to) || !(rotate || rule.direction
            == direction) {
            lemma_adjacent_mirror(image, x, y, direction, rule.to, rule.from);
        }
    }
    assert forall|rule: Rule| learned_rules(image, rotate).contains(
        rule,
    ) implies rules_before(image, rotate, 0, height).contains(rule) by {
        let (x, y, direction) = choose|x: int, y: int, direction: Direction|
            #[trigger] adjacent(image, x, y, direction, rule.from, rule.to) && (rotate
                || direction == rule.direction);
        assert(records(image, x, y, direction, rotate, rule));
    }
}

/// Learns the rules and the frequencies of a sample in one scan, row by row.
///
/// Fails if some pixel of the sample has no tile type. Else the rules are
/// the learned rules, which hold the mirror of each of their rules, and the
/// frequencies give each tile type of the sample the number of its pixels,
/// which covers every tile type that occurs in a rule.
pub fn generation_init(image: &Sample, rotate_rules: bool) -> (generation: Option<Generation>)
    ensures
        generation is None <==> exists|x: int, y: int|
            image.contains(x, y) && #[trigger] image.tile(x, y) is None,
        generation matches Some(learned) ==> {
            &&& learned.ruleset@ == learned_rules(*image, rotate_rules)
            &&& forall|tile: TileType|
                learned.frequencies@.contains_key(tile) <==> occurrences(*image, tile) > 0
            &&& forall|tile: TileType|
                weight_of(learned.frequencies@, tile) == occurrences(*image, tile)
            &&& learned.well_formed()
        },
{
    let mut ruleset = RuleSet::new();
    let mut frequencies = Frequencies::new();
    let (max_width, max_height) = image.dimensions();
    let mut y: u32 = 0;
    while y < max_height
        invariant
            y <= max_height,
            max_width == image.width(),
            max_height == image.height(),
            ruleset@ == rules_before(*image, rotate_rules, 0, y as int),
            forall|tile: TileType|
                frequencies@.contains_key(tile) <==> seen_before(*image, tile, 0, y as nat) > 0,
            forall|tile: TileType|
                weight_of(frequencies@, tile) == seen_before(*image, tile, 0, y as nat),
            forall|seen_x: int, seen_y: int|
                image.contains(seen_x, seen_y) && seen_y < y ==> #[trigger] image.tile(
                    seen_x,
                    seen_y,
                ) is Some,
        decreases max_height - y,
    {
        let mut x: u32 = 0;
        while x < max_width
            invariant
                x <= max_width,
                y < max_height,
                max_width == image.width(),
                max_height == image.height(),
                ruleset@ == rules_before(*image, rotate_rules, x as int, y as int),
                forall|tile: TileType|
                    frequencies@.contains_key(tile) <==> seen_before(
                        *image,
                        tile,
                        x as nat,
                        y as nat,
                    ) > 0,
                forall|tile: TileType|
                    weight_of(frequencies@, tile) == seen_before(
                        *image,
                        tile,
                        x as nat,
                        y as nat,
                    ),
                forall|seen_x: int, seen_y: int|
                    image.contains(seen_x, seen_y) && scanned(seen_x, seen_y, x as int, y as int)
                        ==> #[trigger] image.tile(seen_x, seen_y) is Some,
            decreases max_width - x,
        {
            if TileType::from_pixel(image, x, y).is_none() {
                return None;
            }
            let ghost counts = frequencies@;
            add_adjacent_rules(&mut ruleset, image, x, y, rotate_rules);
            update_frequencies(&mut frequencies, image, x, y);
            proof {
                use_type_invariant(image);
                lemma_rules_step(*image, rotate_rules, x as int, y as int);
                assert forall|tile: TileType|
                    weight_of(frequencies@, tile) == seen_before(
                        *image,
                        tile,
                        (x + 1) as nat,
                        y as nat,
                    ) && (frequencies@.contains_key(tile) <==> seen_before(
                        *image,
                        tile,
                        (x + 1) as nat,
                        y as nat,
                    ) > 0) by {
                    lemma_seen_in_row(*image, tile, y as int, 0, x as nat);
                    lemma_seen_in_rows(*image, tile, 0, y as nat);
                    assert(y * image.width() + x < image.width() * image.height())
                        by (nonlinear_arith)
                        requires
                            0 <= x < image.width(),
                            0 <= y < image.height(),
                    ;
                    assert(weight_of(counts, tile) == seen_before(
                        *image,
                        tile,
                        x as nat,
                        y as nat,
                    ));
                }
            }
            x += 1;
        }
        y += 1;
    }
    proof {
        lemma_rules_after_scan(*image, rotate_rules);
        lemma_learned_rules_symmetric(*image, rotate_rules);
        lemma_learned_tiles_occur(*image, rotate_rules);
    }
    let ghost counts = frequencies@;
    cover_rule_tiles(&mut frequencies, &ruleset);
    assert(frequencies@ =~= counts);
    Some(Generation { ruleset, frequencies })
}

/// A visit of one more pixel adds the rules it records to those of the
/// visits before.
proof fn lemma_rules_step(image: Sample, rotate: bool, x: int, y: int)
    ensures
        rules_before(image, rotate, x + 1, y) == rules_before(image, rotate, x, y).union(
            rules_at(image, x, y, rotate),
        ),
{
    let next = rules_before(image, rotate, x + 1, y);
    let so_far = rules_before(image, rotate, x, y).union(rules_at(image, x, y, rotate));
    assert forall|rule: Rule| next.contains(rule) implies so_far.contains(rule) by {
        let (at_x, at_y, direction) = choose|at_x: int, at_y: int, direction: Direction|
            scanned(at_x, at_y, x + 1, y) && #[trigger] records(
                image,
                at_x,
                at_y,
                direction,
                rotate,
                rule,
            );
        assert(scanned(at_x, at_y, x, y) || (at_x == x && at_y == y));
    }
    assert forall|rule: Rule| so_far.contains(rule) implies next.contains(rule) by {
        if rules_before(image, rotate, x, y).contains(rule) {
            let (at_x, at_y, direction) = choose|at_x: int, at_y: int, direction: Direction|
                scanned(at_x, at_y, x, y) && #[trigger] records(
                    image,
                    at_x,
                    at_y,
                    direction,
                    rotate,
                    rule,
                );
            assert(scanned(at_x, at_y, x + 1, y));
        } else {
            assert(scanned(x, y, x + 1, y));
        }
    }
}

} // verus!
