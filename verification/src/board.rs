//! The board: a grid of cells, each revealed or still hidden.

use vstd::prelude::*;
use crate::tile::coast_tile;
use crate::tile::grass_tile;
use crate::tile::water_tile;
use crate::tile::TileType;
use crate::tile_set::TileSet;

verus! {

/// The tile types that a hidden cell may still become.
#[derive(Debug)]
pub struct PossibileTiles {
    pub choices: TileSet,
}

impl Clone for PossibileTiles {
    /// Candidates of their own, the same tile types.
    fn clone(&self) -> (copy: PossibileTiles)
        ensures
            copy.choices@ == self.choices@,
    {
        PossibileTiles { choices: self.choices.clone() }
    }
}

/// A cell of the board.
#[derive(Debug)]
pub enum Tile {
    /// The cell has been given its tile type for good.
    Revealed(TileType),
    /// The cell is still open.
    Hidden(PossibileTiles),
}

/// What a cell of the board stands for.
pub enum Cell {
    Revealed(TileType),
    Hidden(Set<TileType>),
}

impl View for Tile {
    type V = Cell;

    open spec fn view(&self) -> Cell {
        match self {
            Tile::Revealed(tile) => Cell::Revealed(*tile),
            Tile::Hidden(possible) => Cell::Hidden(possible.choices@),
        }
    }
}

impl Clone for Tile {
    /// A cell of its own that stands for the same.
    fn clone(&self) -> (copy: Tile)
        ensures
            copy@ == self@,
    {
        match self {
            Tile::Revealed(tile) => Tile::Revealed(*tile),
            Tile::Hidden(possible_tiles) => Tile::Hidden(possible_tiles.clone()),
        }
    }
}

/// The glyph that shows a cell: a coloured square for a revealed coast,
/// grass or water tile, a red square for any other revealed tile, the
/// invalid tile among them, and a white square for a hidden cell.
pub open spec fn glyph_of(cell: Cell) -> char {
    match cell {
        Cell::Revealed(tile) => if tile == TileType::coast() {
            '\u{1f7e8}'
        } else if tile == TileType::grass() {
            '\u{1f7e9}'
        } else if tile == TileType::water() {
            '\u{1f7e6}'
        } else {
            '\u{1f7e5}'
        },
        Cell::Hidden(_) => '\u{2b1c}',
    }
}

/// The glyph that shows a cell.
pub fn glyph(cell: &Tile) -> (shown: char)
    ensures
        shown == glyph_of(cell@),
{
    match cell {
        Tile::Revealed(tile) => if *tile == coast_tile() {
            '\u{1f7e8}'
        } else if *tile == grass_tile() {
            '\u{1f7e9}'
        } else if *tile == water_tile() {
            '\u{1f7e6}'
        } else {
            '\u{1f7e5}'
        },
        Tile::Hidden(_) => '\u{2b1c}',
    }
}

/// What the rows of a board stand for: row `y` of the grid holds the cells of
/// row `y` of the board, column by column. Rows need not be equally long.
pub open spec fn grid_of(board: Seq<Vec<Tile>>) -> Seq<Seq<Cell>> {
    Seq::new(board.len(), |y: int| Seq::new(board[y]@.len(), |x: int| board[y]@[x]@))
}

/// Whether a grid has a cell in column `x` of row `y`.
pub open spec fn in_grid(grid: Seq<Seq<Cell>>, x: int, y: int) -> bool {
    0 <= y < grid.len() && 0 <= x < grid[y].len()
}

/// The grid with the cell in column `x` of row `y` replaced.
pub open spec fn set_cell(grid: Seq<Seq<Cell>>, x: int, y: int, cell: Cell) -> Seq<Seq<Cell>> {
    grid.update(y, grid[y].update(x, cell))
}

} // verus!
