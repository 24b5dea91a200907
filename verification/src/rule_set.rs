//! Finite sets of adjacency rules.

use std::collections::HashSet;
use vstd::prelude::*;
use crate::walk::stored_keys;
use crate::rule::Rule;
use crate::rule::RULE_KEY_LIMIT;
use crate::tile::TileType;
use crate::tile_set::TileSet;

verus! {

/// A set of rules, hashed by their keys: no rule occurs twice, and the order
/// of insertion leaves no trace.
#[derive(Debug)]
pub struct RuleSet {
    keys: HashSet<u64>,
}

impl View for RuleSet {
    type V = Set<Rule>;

    /// The rules whose keys are stored.
    closed spec fn view(&self) -> Set<Rule> {
        Set::new(|rule: Rule| self.keys@.contains(rule.key()))
    }
}

impl RuleSet {
    /// The empty set.
    pub fn new() -> (set: RuleSet)
        ensures
            set@ == Set::<Rule>::empty(),
    {
        RuleSet { keys: HashSet::new() }
    }

    /// Adds a rule; says whether it was absent before.
    pub fn insert(&mut self, rule: Rule) -> (fresh: bool)
        ensures
            final(self)@ == old(self)@.insert(rule),
            fresh == !old(self)@.contains(rule),
    {
        let fresh = self.keys.insert(rule.to_key());
        proof {
            assert forall|other: Rule| other.key() == rule.key() implies other == rule by {
                Rule::lemma_key_injective(other, rule);
            }
        }
        fresh
    }

    /// Whether the rule is in the set.
    pub fn contains(&self, rule: &Rule) -> (found: bool)
        ensures
            found == self@.contains(*rule),
    {
        let key: u64 = rule.to_key();
        self.keys.contains(&key)
    }

    /// The rules of the set, each once, in no particular order.
    pub fn to_vec(&self) -> (rules: Vec<Rule>)
        ensures
            rules@.no_duplicates(),
            rules@.to_set() == self@,
    {
        let keys = stored_keys(&self.keys);
        let mut rules: Vec<Rule> = Vec::new();
        // For each rule the index of its key, and for each key the index of
        // its rule, or -1 where the key stands for no rule.
        let ghost mut source: Seq<int> = Seq::empty();
        let ghost mut slot: Seq<int> = Seq::empty();
        let mut i: usize = 0;
        while i < keys.len()
            invariant
                i <= keys.len(),
                keys@.no_duplicates(),
                source.len() == rules@.len(),
                slot.len() == i,
                forall|j: int|
                    0 <= j < rules@.len() ==> 0 <= #[trigger] source[j] < i && keys@[source[j]]
                        == rules@[j].key() && slot[source[j]] == j,
                forall|k: int|
                    0 <= k < i && keys@[k] < RULE_KEY_LIMIT ==> 0 <= #[trigger] slot[k]
                        < rules@.len() && source[slot[k]] == k,
            decreases keys.len() - i,
        {
            let key: u64 = keys[i];
            if key < RULE_KEY_LIMIT {
                let rule = Rule::from_key(key);
                proof {
                    slot = slot.push(rules@.len() as int);
                    source = source.push(i as int);
                }
                rules.push(rule);
            } else {
                proof {
                    slot = slot.push(-1);
                }
            }
            i += 1;
        }
        proof {
            assert forall|a: int, b: int|
                0 <= a < rules@.len() && 0 <= b < rules@.len() && a != b implies rules@[a]
                != rules@[b] by {
                assert(slot[source[a]] == a && slot[source[b]] == b);
            }
            assert forall|rule: Rule| self@.contains(rule) implies rules@.to_set().contains(
                rule,
            ) by {
                let k = choose|k: int| 0 <= k < keys@.len() && keys@[k] == rule.key();
                Rule::lemma_key_injective(rules@[slot[k]], rule);
            }
            assert forall|rule: Rule| rules@.to_set().contains(rule) implies self@.contains(
                rule,
            ) by {
                let j = choose|j: int| 0 <= j < rules@.len() && rules@[j] == rule;
                assert(keys@.to_set().contains(keys@[source[j]]));
            }
        }
        rules
    }

    /// The number of rules in the set.
    pub fn len(&self) -> (len: usize)
        ensures
            len == self@.len(),
    {
        let rules = self.to_vec();
        proof {
            rules@.unique_seq_to_set();
        }
        rules.len()
    }

    /// Whether the set holds no rule.
    pub fn is_empty(&self) -> (empty: bool)
        ensures
            empty == self@.is_empty(),
    {
        let rules = self.to_vec();
        proof {
            if rules@.len() > 0 {
                assert(rules@.to_set().contains(rules@[0]));
            }
        }
        rules.len() == 0
    }

    /// The set of the rules in a list.
    pub fn from_rules(rules: &Vec<Rule>) -> (set: RuleSet)
        ensures
            set@ == rules@.to_set(),
    {
        let mut set = RuleSet::new();
        let mut i: usize = 0;
        while i < rules.len()
            invariant
                i <= rules.len(),
                set@.subset_of(rules@.to_set()),
                forall|j: int| 0 <= j < i ==> set@.contains(#[trigger] rules@[j]),
            decreases rules.len() - i,
        {
            set.insert(rules[i]);
            i += 1;
        }
        set
    }
}

/// Whether a set of rules holds the mirror of each of its rules.
pub open spec fn symmetric(rules: Set<Rule>) -> bool {
    forall|rule: Rule| #[trigger] rules.contains(rule) ==> rules.contains(rule.mirror())
}

/// The tile types that occur in some rule of a set, as the tile a rule starts
/// from or as the tile it leads to.
pub open spec fn tiles_of(rules: Set<Rule>) -> Set<TileType> {
    Set::new(
        |tile: TileType|
            exists|rule: Rule|
                #[trigger] rules.contains(rule) && (rule.from == tile || rule.to == tile),
    )
}

/// Collects the tile types that occur in the rules.
pub fn get_all_tile_types(ruleset: &RuleSet) -> (result: TileSet)
    ensures
        result@ == tiles_of(ruleset@),
{
    let mut result = TileSet::new();
    let rules = ruleset.to_vec();
    let mut i: usize = 0;
    while i < rules.len()
        invariant
            i <= rules.len(),
            rules@.to_set() == ruleset@,
            forall|tile: TileType|
                result@.contains(tile) <==> exists|j: int|
                    0 <= j < i && ((#[trigger] rules@[j]).from == tile || rules@[j].to == tile),
        decreases rules.len() - i,
    {
        let rule = rules[i];
        result.insert(rule.from);
        result.insert(rule.to);
        i += 1;
    }
    proof {
        assert forall|tile: TileType| result@.contains(tile) implies tiles_of(ruleset@).contains(
            tile,
        ) by {
            let j = choose|j: int|
                0 <= j < i && ((#[trigger] rules@[j]).from == tile || rules@[j].to == tile);
            assert(rules@.to_set().contains(rules@[j]));
        }
        assert forall|tile: TileType| tiles_of(ruleset@).contains(tile) implies result@.contains(
            tile,
        ) by {
            let rule = choose|rule: Rule|
                #[trigger] ruleset@.contains(rule) && (rule.from == tile || rule.to == tile);
            let j = choose|j: int| 0 <= j < rules@.len() && rules@[j] == rule;
            assert(rules@[j].from == tile || rules@[j].to == tile);
        }
    }
    result
}

} // verus!
