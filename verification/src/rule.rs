//! Adjacency rules between tile types.

use vstd::prelude::*;
use vstd::std_specs::cmp::PartialEqSpecImpl;
use crate::direction::Direction;
use crate::tile::TileType;

verus! {

/// The fact that a cell of type `from` may have a cell of type `to` as its
/// neighbour in `direction`.
#[derive(Clone, Copy, Debug, Hash, Eq)]
pub struct Rule {
    pub from: TileType,
    pub to: TileType,
    pub direction: Direction,
}

impl PartialEq for Rule {
    fn eq(&self, other: &Self) -> (equal: bool) {
        self.from == other.from && self.to == other.to && self.direction == other.direction
    }
}

impl PartialEqSpecImpl for Rule {
    open spec fn obeys_eq_spec() -> bool {
        true
    }

    open spec fn eq_spec(&self, other: &Self) -> bool {
        *self == *other
    }
}

/// Exclusive upper bound of the keys that stand for a rule.
pub const RULE_KEY_LIMIT: u64 = 0x4_0000_0000_0000;

impl Rule {
    /// The same adjacency seen from the other cell: the tiles swapped and the
    /// direction turned round.
    pub open spec fn mirror(self) -> Rule {
        Rule { from: self.to, to: self.from, direction: self.direction.opposite() }
    }

    /// The integer that stands for this rule in hashed collections.
    pub open spec fn key(self) -> u64 {
        (self.from.key() * 0x400_0000 + self.to.key() * 4 + self.direction.index()) as u64
    }

    /// Two rules with the same key are the same rule.
    pub proof fn lemma_key_injective(a: Rule, b: Rule)
        requires
            a.key() == b.key(),
        ensures
            a == b,
    {
        TileType::lemma_key_injective(a.from, b.from);
        TileType::lemma_key_injective(a.to, b.to);
    }

    /// The rule from `from` to `to` in `direction`.
    pub fn new(from: TileType, to: TileType, direction: Direction) -> (rule: Rule)
        ensures
            rule == (Rule { from, to, direction }),
    {
        Rule { from, to, direction }
    }

    /// The mirror of the rule from `from` to `to` in `direction`.
    pub fn reverse(from: TileType, to: TileType, direction: Direction) -> (rule: Rule)
        ensures
            rule == (Rule { from, to, direction }).mirror(),
    {
        Rule { from: to, to: from, direction: direction.get_opposite() }
    }

    /// The key of this rule.
    pub fn to_key(&self) -> (key: u64)
        ensures
            key == self.key(),
            key < RULE_KEY_LIMIT,
    {
        let from: u64 = self.from.to_key() as u64;
        let to: u64 = self.to.to_key() as u64;
        from * 0x400_0000 + to * 4 + self.direction.to_index()
    }

    /// The rule that a key below `RULE_KEY_LIMIT` stands for.
    pub fn from_key(key: u64) -> (rule: Rule)
        requires
            key < RULE_KEY_LIMIT,
        ensures
            rule.key() == key,
    {
        let from: u32 = (key / 0x400_0000) as u32;
        let to: u32 = ((key / 4) % 0x100_0000) as u32;
        Rule {
            from: TileType::from_key(from),
            to: TileType::from_key(to),
            direction: Direction::from_index(key % 4),
        }
    }
}

} // verus!
