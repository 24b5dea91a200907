//! How often each tile type was seen.

use std::collections::HashMap;
use vstd::prelude::*;
use crate::tile::TileType;

verus! {

/// Occurrence counts of tile types, hashed by the tiles' keys.
#[derive(Debug)]
pub struct Frequencies {
    counts: HashMap<u32, u32>,
}

impl View for Frequencies {
    type V = Map<TileType, u32>;

    /// The counts of the tile types whose keys are stored.
    closed spec fn view(&self) -> Map<TileType, u32> {
        Map::new(
            |tile: TileType| self.counts@.contains_key(tile.key()),
            |tile: TileType| self.counts@[tile.key()],
        )
    }
}

/// The count that a tile type has in a table of frequencies: a tile type
/// without an entry counts as never seen.
pub open spec fn weight_of(frequencies: Map<TileType, u32>, tile: TileType) -> nat {
    if frequencies.contains_key(tile) {
        frequencies[tile] as nat
    } else {
        0
    }
}

/// One more than a count, or the count itself where it is the largest that
/// fits.
pub open spec fn saturating_succ(count: nat) -> u32 {
    if count >= u32::MAX {
        u32::MAX
    } else {
        (count + 1) as u32
    }
}

impl Frequencies {
    /// The empty table.
    pub fn new() -> (frequencies: Frequencies)
        ensures
            frequencies@ == Map::<TileType, u32>::empty(),
    {
        Frequencies { counts: HashMap::new() }
    }

    /// The count on record for a tile type.
    pub fn get(&self, tile: &TileType) -> (count: Option<u32>)
        ensures
            count == if self@.contains_key(*tile) {
                Some(self@[*tile])
            } else {
                None
            },
    {
        let key: u32 = tile.to_key();
        match self.counts.get(&key) {
            Some(count) => Some(*count),
            None => None,
        }
    }

    /// The count of a tile type, 0 where it has no entry.
    pub fn weight(&self, tile: &TileType) -> (count: u32)
        ensures
            count == weight_of(self@, *tile),
    {
        match self.get(tile) {
            Some(count) => count,
            None => 0,
        }
    }

    /// Sets the count of a tile type.
    pub fn insert(&mut self, tile: TileType, count: u32)
        ensures
            final(self)@ == old(self)@.insert(tile, count),
    {
        self.counts.insert(tile.to_key(), count);
        proof {
            assert forall|other: TileType| other.key() == tile.key() implies other == tile by {
                TileType::lemma_key_injective(other, tile);
            }
        }
    }
}

} // verus!
