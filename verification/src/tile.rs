//! Tile types: the alphabet that samples are read in and grids are written in.

use vstd::prelude::*;
use vstd::std_specs::cmp::PartialEqSpecImpl;

verus! {

/// A semantic tile category, identified by the colour that stands for it in a
/// sample image.
#[derive(Clone, Copy, Debug, Hash, Eq)]
pub struct TileType {
    pub rgb: [u8; 3],
}

impl PartialEq for TileType {
    fn eq(&self, other: &Self) -> (equal: bool) {
        let equal = self.rgb[0] == other.rgb[0] && self.rgb[1] == other.rgb[1] && self.rgb[2]
            == other.rgb[2];
        proof {
            if equal {
                assert(self.rgb =~= other.rgb);
            }
        }
        equal
    }
}

impl PartialEqSpecImpl for TileType {
    open spec fn obeys_eq_spec() -> bool {
        true
    }

    open spec fn eq_spec(&self, other: &Self) -> bool {
        *self == *other
    }
}

/// Exclusive upper bound of the keys that stand for a tile type.
pub const TILE_KEY_LIMIT: u32 = 0x100_0000;

impl TileType {
    /// The reserved tile that marks a cell for which no legal tile was left.
    pub open spec fn invalid() -> TileType {
        TileType { rgb: [255, 0, 0] }
    }

    /// The tile of open water.
    pub open spec fn water() -> TileType {
        TileType { rgb: [63, 72, 204] }
    }

    /// The tile of the coast.
    pub open spec fn coast() -> TileType {
        TileType { rgb: [255, 201, 14] }
    }

    /// The tile of grassland.
    pub open spec fn grass() -> TileType {
        TileType { rgb: [34, 177, 76] }
    }

    /// The tile type that a pixel's channel values stand for: its first three
    /// values, where it has that many.
    pub open spec fn classify(pixel: Seq<u8>) -> Option<TileType> {
        if pixel.len() >= 3 {
            Some(TileType { rgb: [pixel[0], pixel[1], pixel[2]] })
        } else {
            None
        }
    }

    /// The integer that stands for this tile type in hashed collections: its
    /// three colour bytes, read as one big-endian number.
    pub open spec fn key(self) -> u32 {
        (self.rgb[0] * 0x1_0000 + self.rgb[1] * 0x100 + self.rgb[2]) as u32
    }

    /// Two tile types with the same key are the same tile type.
    pub proof fn lemma_key_injective(a: TileType, b: TileType)
        requires
            a.key() == b.key(),
        ensures
            a == b,
    {
        assert(a.rgb =~= b.rgb);
    }

    /// The key of this tile type.
    pub fn to_key(&self) -> (key: u32)
        ensures
            key == self.key(),
            key < TILE_KEY_LIMIT,
    {
        let red: u32 = self.rgb[0] as u32;
        let green: u32 = self.rgb[1] as u32;
        let blue: u32 = self.rgb[2] as u32;
        red * 0x1_0000 + green * 0x100 + blue
    }

    /// The tile type that a key below `TILE_KEY_LIMIT` stands for.
    pub fn from_key(key: u32) -> (tile: TileType)
        requires
            key < TILE_KEY_LIMIT,
        ensures
            tile.key() == key,
    {
        let red: u8 = (key / 0x1_0000) as u8;
        let green: u8 = ((key / 0x100) % 0x100) as u8;
        let blue: u8 = (key % 0x100) as u8;
        TileType { rgb: [red, green, blue] }
    }
}

/// The reserved tile that marks a cell for which no legal tile was left.
pub fn invalid_tile() -> (tile: TileType)
    ensures
        tile == TileType::invalid(),
{
    TileType { rgb: [255, 0, 0] }
}

/// The tile of open water.
pub fn water_tile() -> (tile: TileType)
    ensures
        tile == TileType::water(),
{
    TileType { rgb: [63, 72, 204] }
}

/// The tile of the coast.
pub fn coast_tile() -> (tile: TileType)
    ensures
        tile == TileType::coast(),
{
    TileType { rgb: [255, 201, 14] }
}

/// The tile of grassland.
pub fn grass_tile() -> (tile: TileType)
    ensures
        tile == TileType::grass(),
{
    TileType { rgb: [34, 177, 76] }
}

} // verus!
