//! Finite sets of tile types.

use std::collections::HashSet;
use vstd::prelude::*;
use crate::walk::lemma_hash_set_finite;
use crate::walk::stored_keys;
use crate::tile::TileType;
use crate::tile::TILE_KEY_LIMIT;

verus! {

/// A set of tile types, hashed by their keys.
#[derive(Debug)]
pub struct TileSet {
    keys: HashSet<u32>,
}

impl View for TileSet {
    type V = Set<TileType>;

    /// The tile types whose keys are stored.
    closed spec fn view(&self) -> Set<TileType> {
        Set::new(|tile: TileType| self.keys@.contains(tile.key()))
    }
}

impl Clone for TileSet {
    /// A set of its own with the same tile types.
    fn clone(&self) -> (copy: TileSet)
        ensures
            copy@ == self@,
    {
        let keys = stored_keys(&self.keys);
        let mut copied: HashSet<u32> = HashSet::new();
        let mut i: usize = 0;
        while i < keys.len()
            invariant
                i <= keys.len(),
                keys@.to_set() == self.keys@,
                copied@.subset_of(self.keys@),
                forall|j: int| 0 <= j < i ==> copied@.contains(#[trigger] keys@[j]),
            decreases keys.len() - i,
        {
            copied.insert(keys[i]);
            i += 1;
        }
        TileSet { keys: copied }
    }
}

impl TileSet {
    /// The empty set.
    pub fn new() -> (set: TileSet)
        ensures
            set@ == Set::<TileType>::empty(),
    {
        TileSet { keys: HashSet::new() }
    }

    /// A tile set holds finitely many tile types.
    pub proof fn lemma_finite(self)
        ensures
            self@.finite(),
    {
        let tile_of = |key: u32| choose|tile: TileType| tile.key() == key;
        assert(self@.subset_of(self.keys@.map(tile_of))) by {
            assert forall|tile: TileType| self@.contains(tile) implies self.keys@.map(
                tile_of,
            ).contains(tile) by {
                TileType::lemma_key_injective(tile_of(tile.key()), tile);
            }
        }
        lemma_hash_set_finite(self.keys);
        self.keys@.lemma_map_finite(tile_of);
        vstd::set_lib::lemma_len_subset(self@, self.keys@.map(tile_of));
    }

    /// Adds a tile type; says whether it was absent before.
    pub fn insert(&mut self, tile: TileType) -> (fresh: bool)
        ensures
            final(self)@ == old(self)@.insert(tile),
            fresh == !old(self)@.contains(tile),
    {
        let fresh = self.keys.insert(tile.to_key());
        proof {
            assert forall|other: TileType| other.key() == tile.key() implies other == tile by {
                TileType::lemma_key_injective(other, tile);
            }
        }
        fresh
    }

    /// Whether the tile type is in the set.
    pub fn contains(&self, tile: &TileType) -> (found: bool)
        ensures
            found == self@.contains(*tile),
    {
        let key: u32 = tile.to_key();
        self.keys.contains(&key)
    }

    /// The tile types of the set, each once, in no particular order.
    pub fn to_vec(&self) -> (tiles: Vec<TileType>)
        ensures
            tiles@.no_duplicates(),
            tiles@.to_set() == self@,
    {
        let keys = stored_keys(&self.keys);
        let mut tiles: Vec<TileType> = Vec::new();
        // For each tile the index of its key, and for each key the index of
        // its tile, or -1 where the key stands for no tile.
        let ghost mut source: Seq<int> = Seq::empty();
        let ghost mut slot: Seq<int> = Seq::empty();
        let mut i: usize = 0;
        while i < keys.len()
            invariant
                i <= keys.len(),
                keys@.no_duplicates(),
                source.len() == tiles@.len(),
                slot.len() == i,
                forall|j: int|
                    0 <= j < tiles@.len() ==> 0 <= #[trigger] source[j] < i && keys@[source[j]]
                        == tiles@[j].key() && slot[source[j]] == j,
                forall|k: int|
                    0 <= k < i && keys@[k] < TILE_KEY_LIMIT ==> 0 <= #[trigger] slot[k]
                        < tiles@.len() && source[slot[k]] == k,
            decreases keys.len() - i,
        {
            let key: u32 = keys[i];
            if key < TILE_KEY_LIMIT {
                let tile = TileType::from_key(key);
                proof {
                    slot = slot.push(tiles@.len() as int);
                    source = source.push(i as int);
                }
                tiles.push(tile);
            } else {
                proof {
                    slot = slot.push(-1);
                }
            }
            i += 1;
        }
        proof {
            assert forall|a: int, b: int|
                0 <= a < tiles@.len() && 0 <= b < tiles@.len() && a != b implies tiles@[a]
                != tiles@[b] by {
                assert(slot[source[a]] == a && slot[source[b]] == b);
            }
            assert forall|tile: TileType| self@.contains(tile) implies tiles@.to_set().contains(
                tile,
            ) by {
                let k = choose|k: int| 0 <= k < keys@.len() && keys@[k] == tile.key();
                TileType::lemma_key_injective(tiles@[slot[k]], tile);
            }
            assert forall|tile: TileType| tiles@.to_set().contains(tile) implies self@.contains(
                tile,
            ) by {
                let j = choose|j: int| 0 <= j < tiles@.len() && tiles@[j] == tile;
                assert(keys@.to_set().contains(keys@[source[j]]));
            }
        }
        tiles
    }

    /// The number of tile types in the set.
    pub fn len(&self) -> (len: usize)
        ensures
            len == self@.len(),
    {
        let tiles = self.to_vec();
        proof {
            tiles@.unique_seq_to_set();
        }
        tiles.len()
    }

    /// Whether the set holds no tile type.
    pub fn is_empty(&self) -> (empty: bool)
        ensures
            empty == self@.is_empty(),
    {
        let tiles = self.to_vec();
        proof {
            if tiles@.len() > 0 {
                assert(tiles@.to_set().contains(tiles@[0]));
            }
        }
        tiles.len() == 0
    }

    /// The set of the tile types in a list.
    pub fn from_tiles(tiles: &Vec<TileType>) -> (set: TileSet)
        ensures
            set@ == tiles@.to_set(),
    {
        let mut set = TileSet::new();
        let mut i: usize = 0;
        while i < tiles.len()
            invariant
                i <= tiles.len(),
                set@.subset_of(tiles@.to_set()),
                forall|j: int| 0 <= j < i ==> set@.contains(#[trigger] tiles@[j]),
            decreases tiles.len() - i,
        {
            set.insert(tiles[i]);
            i += 1;
        }
        set
    }
}

} // verus!
