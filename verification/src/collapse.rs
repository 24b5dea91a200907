//! Collapse: revealing cells one at a time and narrowing their neighbours.

use vstd::prelude::*;
use crate::board::grid_of;
use crate::board::in_grid;
use crate::board::set_cell;
use crate::board::Cell;
use crate::board::PossibileTiles;
use crate::board::Tile;
use crate::direction::Direction;
use crate::frequencies::weight_of;
use crate::frequencies::Frequencies;
use crate::learn::Generation;
use crate::random::random_index;
use crate::rule::Rule;
use crate::rule_set::get_all_tile_types;
use crate::rule_set::tiles_of;
use crate::rule_set::RuleSet;
use crate::scan::scanned;
use crate::tile::invalid_tile;
use crate::tile::TileType;
use crate::tile_set::TileSet;
use crate::walk::lemma_take_one_more;

verus! {

/// How many copies of a tile type the weighted pool of a cell holds: as many
/// as the tile type's frequency if it is a candidate, none if it is not.
pub open spec fn pool_copies(
    candidates: Set<TileType>,
    frequencies: Map<TileType, u32>,
    tile: TileType,
) -> nat {
    if candidates.contains(tile) {
        weight_of(frequencies, tile)
    } else {
        0
    }
}

/// Whether `tile` may be drawn for a cell with these candidates: it is a
/// candidate with a frequency above 0, or, where there is no such
/// candidate, it is the invalid tile.
pub open spec fn selectable(
    candidates: Set<TileType>,
    frequencies: Map<TileType, u32>,
    tile: TileType,
) -> bool {
    if exists|other: TileType| pool_copies(candidates, frequencies, other) > 0 {
        pool_copies(candidates, frequencies, tile) > 0
    } else {
        tile == TileType::invalid()
    }
}

/// Builds the weighted pool of a cell: each candidate as often as its
/// frequency says, in no particular order.
pub fn weighted_pool(candidates: &TileSet, frequencies: &Frequencies) -> (pool: Vec<TileType>)
    ensures
        forall|tile: TileType|
            pool@.to_multiset().count(tile) == pool_copies(candidates@, frequencies@, tile),
{
    broadcast use vstd::seq_lib::group_to_multiset_ensures;

    let tiles = candidates.to_vec();
    let mut pool: Vec<TileType> = Vec::new();
    let mut i: usize = 0;
    while i < tiles.len()
        invariant
            i <= tiles.len(),
            tiles@.no_duplicates(),
            tiles@.to_set() == candidates@,
            forall|tile: TileType|
                pool@.to_multiset().count(tile) == pool_copies(
                    tiles@.take(i as int).to_set(),
                    frequencies@,
                    tile,
                ),
        decreases tiles.len() - i,
    {
        let tile = tiles[i];
        let frequency: u32 = frequencies.weight(&tile);
        let ghost before = pool@;
        assert(!tiles@.take(i as int).to_set().contains(tile)) by {
            if tiles@.take(i as int).to_set().contains(tile) {
                let j = choose|j: int| 0 <= j < i && tiles@.take(i as int)[j] == tile;
                assert(tiles@[j] == tiles@[i as int]);
            }
        }
        let mut copies: u32 = 0;
        while copies < frequency
            invariant
                copies <= frequency,
                forall|other: TileType|
                    pool@.to_multiset().count(other) == before.to_multiset().count(other) + if other
                        == tile {
                        copies as nat
                    } else {
                        0nat
                    },
            decreases frequency - copies,
        {
            proof {
                pool@.to_multiset_ensures();
            }
            pool.push(tile);
            copies += 1;
        }
        proof {
            lemma_take_one_more(tiles@, i as int);
        }
        i += 1;
    }
    assert(tiles@.take(tiles@.len() as int) == tiles@);
    pool
}

/// The tile at a position of the pool; the invalid tile where the pool has
/// no such position.
pub fn pick_tile(pool: &Vec<TileType>, index: usize) -> (tile: TileType)
    ensures
        tile == if index < pool@.len() {
            pool@[index as int]
        } else {
            TileType::invalid()
        },
{
    if index < pool.len() {
        pool[index]
    } else {
        invalid_tile()
    }
}

/// Draws the tile type of a cell: one position of its weighted pool, each
/// with the same chance. A cell whose pool is empty gets the invalid tile.
pub fn choose_tile(possible_tiles: &PossibileTiles, frequencies: &Frequencies) -> (tile: TileType)
    ensures
        selectable(possible_tiles.choices@, frequencies@, tile),
        possible_tiles.choices@.is_empty() ==> tile == TileType::invalid(),
{
    broadcast use vstd::seq_lib::group_to_multiset_ensures;

    let tile_choices = weighted_pool(&possible_tiles.choices, frequencies);
    if tile_choices.len() == 0 {
        assert forall|other: TileType|
            pool_copies(possible_tiles.choices@, frequencies@, other) == 0 by {
            assert(tile_choices@.to_multiset().count(other) > 0 ==> tile_choices@.contains(
                other,
            ));
        }
        return invalid_tile();
    }
    let index = random_index(tile_choices.len());
    let tile = pick_tile(&tile_choices, index);
    assert(tile_choices@.to_multiset().count(tile) > 0);
    tile
}

/// The candidates that a revealed neighbour leaves: those that the rules let
/// stand in `direction` of a cell of type `source`.
pub open spec fn narrow(
    source: TileType,
    direction: Direction,
    rules: Set<Rule>,
    candidates: Set<TileType>,
) -> Set<TileType> {
    candidates.filter(|tile: TileType| rules.contains(Rule { from: source, to: tile, direction }))
}

/// Narrowing takes candidates away and adds none.
pub proof fn lemma_narrow_shrinks(
    source: TileType,
    direction: Direction,
    rules: Set<Rule>,
    candidates: Set<TileType>,
)
    requires
        candidates.finite(),
    ensures
        narrow(source, direction, rules, candidates).subset_of(candidates),
        narrow(source, direction, rules, candidates).finite(),
        narrow(source, direction, rules, candidates).len() <= candidates.len(),
{
    vstd::set_lib::lemma_len_subset(narrow(source, direction, rules, candidates), candidates);
}

/// Against an empty set of rules narrowing leaves no candidate.
pub proof fn lemma_narrow_without_rules(
    source: TileType,
    direction: Direction,
    candidates: Set<TileType>,
)
    ensures
        narrow(source, direction, Set::<Rule>::empty(), candidates) == Set::<TileType>::empty(),
{
}

/// The candidates that a sequence of narrowings leaves, each by a source
/// tile type in a direction, the first of the sequence first.
pub open spec fn narrow_all(
    steps: Seq<(TileType, Direction)>,
    rules: Set<Rule>,
    candidates: Set<TileType>,
) -> Set<TileType>
    decreases steps.len(),
{
    if steps.len() == 0 {
        candidates
    } else {
        narrow(
            steps.last().0,
            steps.last().1,
            rules,
            narrow_all(steps.drop_last(), rules, candidates),
        )
    }
}

/// Along any sequence of narrowings the candidates never grow: after each
/// step they are a subset of what they were before it, and no more in
/// number.
pub proof fn lemma_narrowing_monotone(
    steps: Seq<(TileType, Direction)>,
    rules: Set<Rule>,
    candidates: Set<TileType>,
)
    requires
        candidates.finite(),
    ensures
        narrow_all(steps, rules, candidates).finite(),
        narrow_all(steps, rules, candidates).subset_of(candidates),
        narrow_all(steps, rules, candidates).len() <= candidates.len(),
        forall|done: int|
            0 <= done < steps.len() ==> {
                &&& (#[trigger] narrow_all(steps.take(done + 1), rules, candidates)).subset_of(
                    narrow_all(steps.take(done), rules, candidates),
                )
                &&& narrow_all(steps.take(done + 1), rules, candidates).len() <= narrow_all(
                    steps.take(done),
                    rules,
                    candidates,
                ).len()
            },
    decreases steps.len(),
{
    if steps.len() > 0 {
        let earlier = steps.drop_last();
        lemma_narrowing_monotone(earlier, rules, candidates);
        lemma_narrow_shrinks(
            steps.last().0,
            steps.last().1,
            rules,
            narrow_all(earlier, rules, candidates),
        );
        assert forall|done: int| 0 <= done < steps.len() implies {
            &&& (#[trigger] narrow_all(steps.take(done + 1), rules, candidates)).subset_of(
                narrow_all(steps.take(done), rules, candidates),
            )
            &&& narrow_all(steps.take(done + 1), rules, candidates).len() <= narrow_all(
                steps.take(done),
                rules,
                candidates,
            ).len()
        } by {
            if done + 1 < steps.len() {
                assert(steps.take(done + 1) == earlier.take(done + 1));
                assert(steps.take(done) == earlier.take(done));
            } else {
                assert(steps.take(done + 1) == steps);
            }
        }
    }
}

/// Narrows a set of candidates to those that the rules let stand in
/// `direction` of a cell of type `source_tile`.
pub fn remove_choices(
    source_tile: TileType,
    direction: Direction,
    ruleset: &RuleSet,
    original_choices: &mut TileSet,
)
    ensures
        final(original_choices)@ == narrow(
            source_tile,
            direction,
            ruleset@,
            old(original_choices)@,
        ),
        final(original_choices)@.subset_of(old(original_choices)@),
        final(original_choices)@.len() <= old(original_choices)@.len(),
{
    proof {
        original_choices.lemma_finite();
        lemma_narrow_shrinks(source_tile, direction, ruleset@, original_choices@);
    }
    let candidates = original_choices.to_vec();
    let mut new_choices = TileSet::new();
    let mut i: usize = 0;
    while i < candidates.len()
        invariant
            i <= candidates.len(),
            new_choices@ == narrow(
                source_tile,
                direction,
                ruleset@,
                candidates@.take(i as int).to_set(),
            ),
        decreases candidates.len() - i,
    {
        let tile = candidates[i];
        if ruleset.contains(&Rule::new(source_tile, tile, direction)) {
            new_choices.insert(tile);
        }
        proof {
            lemma_take_one_more(candidates@, i as int);
        }
        i += 1;
    }
    assert(candidates@.take(candidates@.len() as int) == candidates@);
    *original_choices = new_choices;
}

/// The grid after the cell in column `x` of row `y` has told its neighbour in
/// `direction` what it is: if the cell is revealed and the neighbour is a
/// hidden cell of the grid, the neighbour's candidates are narrowed; else
/// nothing changes.
pub open spec fn propagate(
    grid: Seq<Seq<Cell>>,
    rules: Set<Rule>,
    x: int,
    y: int,
    direction: Direction,
) -> Seq<Seq<Cell>> {
    let step = direction.step(x, y);
    if in_grid(grid, x, y) && in_grid(grid, step.0, step.1) {
        match (grid[y][x], grid[step.1][step.0]) {
            (Cell::Revealed(source), Cell::Hidden(candidates)) => set_cell(
                grid,
                step.0,
                step.1,
                Cell::Hidden(narrow(source, direction, rules, candidates)),
            ),
            _ => grid,
        }
    } else {
        grid
    }
}

/// Narrows the neighbour in `direction` of the cell in column `width` of row
/// `height`, if that cell is revealed and the neighbour is a hidden cell of
/// the board.
pub fn update_possible_tiles(
    board: &mut [Vec<Tile>],
    ruleset: &RuleSet,
    width: usize,
    height: usize,
    direction: Direction,
)
    ensures
        grid_of(final(board)@) == propagate(
            grid_of(old(board)@),
            ruleset@,
            width as int,
            height as int,
            direction,
        ),
{
    if height >= board.len() {
        return ;
    }
    if width >= board[height].len() {
        return ;
    }
    let source_tile = match &board[height][width] {
        Tile::Revealed(tile) => *tile,
        Tile::Hidden(_) => {
            return ;
        },
    };
    let (new_w, new_h) = match direction.shift(width, height) {
        Some(stepped) => stepped,
        None => {
            return ;
        },
    };
    if new_h >= board.len() {
        return ;
    }
    let row = &mut board[new_h];
    if new_w >= row.len() {
        return ;
    }
    match &mut row[new_w] {
        Tile::Hidden(possible_tiles) => {
            remove_choices(source_tile, direction, ruleset, &mut possible_tiles.choices);
        },
        Tile::Revealed(_) => {},
    }
    proof {
        assert(grid_of(board@) =~~= propagate(
            grid_of(old(board)@),
            ruleset@,
            width as int,
            height as int,
            direction,
        ));
    }
}

/// The grid after the cell in column `x` of row `y` has told its neighbours
/// in the first `count` directions what it is.
pub open spec fn propagate_all(
    grid: Seq<Seq<Cell>>,
    rules: Set<Rule>,
    x: int,
    y: int,
    count: nat,
) -> Seq<Seq<Cell>>
    decreases count,
{
    if count == 0 {
        grid
    } else {
        propagate(
            propagate_all(grid, rules, x, y, (count - 1) as nat),
            rules,
            x,
            y,
            Direction::at(count - 1),
        )
    }
}

/// The grid after the cell in column `x` of row `y` has been revealed as
/// `tile` and has told its four neighbours.
pub open spec fn reveal_as(
    grid: Seq<Seq<Cell>>,
    rules: Set<Rule>,
    x: int,
    y: int,
    tile: TileType,
) -> Seq<Seq<Cell>> {
    propagate_all(set_cell(grid, x, y, Cell::Revealed(tile)), rules, x, y, 4)
}

/// Reveals the cell in column `width` of row `height`, if the board has one
/// there and it is hidden: the cell gets a tile type drawn from its
/// candidates, an empty set of candidates too, and its four neighbours are
/// narrowed. Else nothing changes.
pub fn reveal_cell(board: &mut [Vec<Tile>], generation: &Generation, width: usize, height: usize)
    ensures
        ({
            let before = grid_of(old(board)@);
            let after = grid_of(final(board)@);
            if in_grid(before, width as int, height as int)
                && before[height as int][width as int] is Hidden {
                &&& in_grid(after, width as int, height as int)
                &&& after[height as int][width as int] matches Cell::Revealed(tile)
                &&& selectable(
                    before[height as int][width as int]->Hidden_0,
                    generation.frequencies@,
                    tile,
                )
                &&& before[height as int][width as int]->Hidden_0.is_empty() ==> tile
                    == TileType::invalid()
                &&& after == reveal_as(
                    before,
                    generation.ruleset@,
                    width as int,
                    height as int,
                    tile,
                )
            } else {
                after == before
            }
        }),
{
    if height >= board.len() {
        return ;
    }
    if width >= board[height].len() {
        return ;
    }
    let new_type = match &board[height][width] {
        Tile::Hidden(possible_tiles) => choose_tile(possible_tiles, &generation.frequencies),
        Tile::Revealed(_) => {
            return ;
        },
    };
    board[height][width] = Tile::Revealed(new_type);
    let ghost revealed = grid_of(board@);
    proof {
        assert(revealed =~~= set_cell(
            grid_of(old(board)@),
            width as int,
            height as int,
            Cell::Revealed(new_type),
        ));
    }
    let directions = Direction::all();
    let mut i: usize = 0;
    while i < 4
        invariant
            i <= 4,
            forall|k: int| 0 <= k < 4 ==> #[trigger] directions[k] == Direction::at(k),
            grid_of(board@) == propagate_all(
                revealed,
                generation.ruleset@,
                width as int,
                height as int,
                i as nat,
            ),
        decreases 4 - i,
    {
        update_possible_tiles(board, &generation.ruleset, width, height, directions[i]);
        i += 1;
    }
    proof {
        lemma_reveal_as(
            grid_of(old(board)@),
            generation.ruleset@,
            width as int,
            height as int,
            new_type,
        );
    }
}

/// What revealing a cell does to each cell of the grid: the shape stays, the
/// cell itself is revealed, each hidden neighbour is narrowed, and every
/// other cell stays as it was.
pub proof fn lemma_reveal_as(grid: Seq<Seq<Cell>>, rules: Set<Rule>, x: int, y: int, tile: TileType)
    requires
        in_grid(grid, x, y),
    ensures
        ({
            let after = reveal_as(grid, rules, x, y, tile);
            &&& after.len() == grid.len()
            &&& forall|row: int|
                0 <= row < grid.len() ==> (#[trigger] after[row]).len() == grid[row].len()
            &&& after[y][x] == Cell::Revealed(tile)
            &&& forall|column: int, row: int|
                in_grid(grid, column, row) && !(column == x && row == y)
                    ==> #[trigger] after[row][column] == narrowed_by(
                    grid[row][column],
                    rules,
                    x,
                    y,
                    tile,
                    column,
                    row,
                )
        }),
{
    reveal_with_fuel(propagate_all, 5);
}

/// What becomes of the cell in column `column` of row `row` when the cell in
/// column `x` of row `y`, another cell, is revealed as `tile`: a hidden
/// direct neighbour is narrowed, and any other cell stays as it is.
pub open spec fn narrowed_by(
    cell: Cell,
    rules: Set<Rule>,
    x: int,
    y: int,
    tile: TileType,
    column: int,
    row: int,
) -> Cell {
    match cell {
        Cell::Hidden(candidates) => {
            if column == x && row == y - 1 {
                Cell::Hidden(narrow(tile, Direction::Up, rules, candidates))
            } else if column == x && row == y + 1 {
                Cell::Hidden(narrow(tile, Direction::Down, rules, candidates))
            } else if column == x - 1 && row == y {
                Cell::Hidden(narrow(tile, Direction::Left, rules, candidates))
            } else if column == x + 1 && row == y {
                Cell::Hidden(narrow(tile, Direction::Right, rules, candidates))
            } else {
                cell
            }
        },
        Cell::Revealed(_) => cell,
    }
}

/// Whether a cell that was `before` may be `after`: a revealed cell stays as
/// it is, and a hidden cell is revealed or keeps candidates that it had.
pub open spec fn follows(before: Cell, after: Cell) -> bool {
    match (before, after) {
        (Cell::Revealed(_), _) => after == before,
        (Cell::Hidden(_), Cell::Revealed(_)) => true,
        (Cell::Hidden(candidates), Cell::Hidden(left)) => left.subset_of(candidates),
    }
}

/// Telling a neighbour takes no cell back and widens none.
pub proof fn lemma_propagate_monotone(
    grid: Seq<Seq<Cell>>,
    rules: Set<Rule>,
    x: int,
    y: int,
    direction: Direction,
)
    ensures
        forall|column: int, row: int|
            in_grid(grid, column, row) ==> follows(
                grid[row][column],
                #[trigger] propagate(grid, rules, x, y, direction)[row][column],
            ),
{
}

/// Revealing a hidden cell takes no cell back and widens none.
pub proof fn lemma_reveal_monotone(
    grid: Seq<Seq<Cell>>,
    rules: Set<Rule>,
    x: int,
    y: int,
    tile: TileType,
)
    requires
        in_grid(grid, x, y),
        grid[y][x] is Hidden,
    ensures
        forall|column: int, row: int|
            in_grid(grid, column, row) ==> follows(
                grid[row][column],
                #[trigger] reveal_as(grid, rules, x, y, tile)[row][column],
            ),
{
    lemma_reveal_as(grid, rules, x, y, tile);
}

/// Whether a grid has `height` rows of `width` cells each.
pub open spec fn rectangular(grid: Seq<Seq<Cell>>, width: int, height: int) -> bool {
    &&& grid.len() == height
    &&& forall|row: int| 0 <= row < height ==> (#[trigger] grid[row]).len() == width
}

/// The candidates that are left to the cell in column `x` of row `y` while a
/// scan row by row stands before column `until_x` of row `until_y`: the tile
/// types of the alphabet that the rules let stand below the cell above and
/// right of the cell to the left, as far as the scan has revealed these.
pub open spec fn pending(
    grid: Seq<Seq<Cell>>,
    alphabet: Set<TileType>,
    rules: Set<Rule>,
    x: int,
    y: int,
    until_x: int,
    until_y: int,
) -> Set<TileType> {
    Set::new(
        |tile: TileType|
            {
                &&& alphabet.contains(tile)
                &&& y > 0 && scanned(x, y - 1, until_x, until_y) ==> allows(
                    grid[y - 1][x],
                    rules,
                    Direction::Down,
                    tile,
                )
                &&& x > 0 && scanned(x - 1, y, until_x, until_y) ==> allows(
                    grid[y][x - 1],
                    rules,
                    Direction::Right,
                    tile,
                )
            },
    )
}

/// Whether a cell is revealed and the rules let `tile` stand in `direction`
/// of it.
pub open spec fn allows(
    cell: Cell,
    rules: Set<Rule>,
    direction: Direction,
    tile: TileType,
) -> bool {
    match cell {
        Cell::Revealed(source) => rules.contains(Rule { from: source, to: tile, direction }),
        Cell::Hidden(_) => false,
    }
}

/// The candidates that the cell in column `x` of row `y` has when a scan row
/// by row comes to it: the tile types of the alphabet that the rules let
/// stand below the cell above, if there is one, and right of the cell to the
/// left, if there is one.
pub open spec fn candidates_at(
    grid: Seq<Seq<Cell>>,
    alphabet: Set<TileType>,
    rules: Set<Rule>,
    x: int,
    y: int,
) -> Set<TileType> {
    pending(grid, alphabet, rules, x, y, x, y)
}

/// Whether the cell in column `x` of row `y` is revealed as a tile type that
/// could be drawn from the candidates it had when the scan came to it.
pub open spec fn settled(
    grid: Seq<Seq<Cell>>,
    alphabet: Set<TileType>,
    rules: Set<Rule>,
    frequencies: Map<TileType, u32>,
    x: int,
    y: int,
) -> bool {
    grid[y][x] matches Cell::Revealed(tile) && selectable(
        candidates_at(grid, alphabet, rules, x, y),
        frequencies,
        tile,
    )
}

/// What holds of the cell in column `x` of row `y` while a scan row by row
/// stands before column `until_x` of row `until_y`: a cell that the scan has
/// visited is settled, and any other is hidden with the candidates that are
/// left to it.
pub open spec fn cell_state(
    grid: Seq<Seq<Cell>>,
    alphabet: Set<TileType>,
    rules: Set<Rule>,
    frequencies: Map<TileType, u32>,
    x: int,
    y: int,
    until_x: int,
    until_y: int,
) -> bool {
    if scanned(x, y, until_x, until_y) {
        settled(grid, alphabet, rules, frequencies, x, y)
    } else {
        grid[y][x] == Cell::Hidden(pending(grid, alphabet, rules, x, y, until_x, until_y))
    }
}

/// What holds of a grid of `width` columns and `height` rows while a scan
/// row by row stands before column `until_x` of row `until_y`.
pub open spec fn scan_state(
    grid: Seq<Seq<Cell>>,
    alphabet: Set<TileType>,
    rules: Set<Rule>,
    frequencies: Map<TileType, u32>,
    width: int,
    height: int,
    until_x: int,
    until_y: int,
) -> bool {
    &&& rectangular(grid, width, height)
    &&& forall|x: int, y: int|
        0 <= x < width && 0 <= y < height ==> #[trigger] cell_state(
            grid,
            alphabet,
            rules,
            frequencies,
            x,
            y,
            until_x,
            until_y,
        )
}

/// Revealing the cell that the scan stands before takes the scan one cell
/// further.
pub proof fn lemma_scan_step(
    grid: Seq<Seq<Cell>>,
    alphabet: Set<TileType>,
    rules: Set<Rule>,
    frequencies: Map<TileType, u32>,
    width: int,
    height: int,
    x: int,
    y: int,
    tile: TileType,
)
    requires
        0 <= x < width,
        0 <= y < height,
        scan_state(grid, alphabet, rules, frequencies, width, height, x, y),
        grid[y][x] matches Cell::Hidden(candidates) && selectable(candidates, frequencies, tile),
    ensures
        scan_state(
            reveal_as(grid, rules, x, y, tile),
            alphabet,
            rules,
            frequencies,
            width,
            height,
            x + 1,
            y,
        ),
{
    let after = reveal_as(grid, rules, x, y, tile);
    lemma_reveal_as(grid, rules, x, y, tile);
    assert forall|column: int, row: int|
        0 <= column < width && 0 <= row < height implies #[trigger] cell_state(
        after,
        alphabet,
        rules,
        frequencies,
        column,
        row,
        x + 1,
        y,
    ) by {
        assert(cell_state(grid, alphabet, rules, frequencies, column, row, x, y));
        if column == x && row == y {
            assert(pending(after, alphabet, rules, x, y, x, y) =~= pending(
                grid,
                alphabet,
                rules,
                x,
                y,
                x,
                y,
            ));
        } else if scanned(column, row, x, y) {
            assert(pending(after, alphabet, rules, column, row, column, row) =~= pending(
                grid,
                alphabet,
                rules,
                column,
                row,
                column,
                row,
            ));
        } else {
            assert(after[row][column]->Hidden_0 =~= pending(
                after,
                alphabet,
                rules,
                column,
                row,
                x + 1,
                y,
            ));
        }
    }
}

/// At the end of a row the scan stands before the next row.
pub proof fn lemma_scan_next_row(
    grid: Seq<Seq<Cell>>,
    alphabet: Set<TileType>,
    rules: Set<Rule>,
    frequencies: Map<TileType, u32>,
    width: int,
    height: int,
    y: int,
)
    requires
        scan_state(grid, alphabet, rules, frequencies, width, height, width, y),
    ensures
        scan_state(grid, alphabet, rules, frequencies, width, height, 0, y + 1),
{
    assert forall|column: int, row: int|
        0 <= column < width && 0 <= row < height implies #[trigger] cell_state(
        grid,
        alphabet,
        rules,
        frequencies,
        column,
        row,
        0,
        y + 1,
    ) by {
        assert(cell_state(grid, alphabet, rules, frequencies, column, row, width, y));
    }
}

/// A board of `height` rows of `width` hidden cells, each with the whole
/// alphabet as its candidates.
pub fn blank_board(alphabet: &TileSet, width: usize, height: usize) -> (board: Vec<Vec<Tile>>)
    ensures
        rectangular(grid_of(board@), width as int, height as int),
        forall|x: int, y: int|
            0 <= x < width && 0 <= y < height ==> #[trigger] grid_of(board@)[y][x] == Cell::Hidden(
                alphabet@,
            ),
{
    let mut board: Vec<Vec<Tile>> = Vec::new();
    let mut y: usize = 0;
    while y < height
        invariant
            y <= height,
            board@.len() == y,
            forall|row: int| 0 <= row < y ==> (#[trigger] board@[row])@.len() == width,
            forall|column: int, row: int|
                0 <= column < width && 0 <= row < y ==> #[trigger] board@[row]@[column]@
                    == Cell::Hidden(alphabet@),
        decreases height - y,
    {
        let mut cells: Vec<Tile> = Vec::new();
        let mut x: usize = 0;
        while x < width
            invariant
                x <= width,
                cells@.len() == x,
                forall|column: int|
                    0 <= column < x ==> (#[trigger] cells@[column])@ == Cell::Hidden(alphabet@),
            decreases width - x,
        {
            cells.push(Tile::Hidden(PossibileTiles { choices: alphabet.clone() }));
            x += 1;
        }
        board.push(cells);
        y += 1;
    }
    board
}

/// Synthesizes a grid of `height` rows of `width` cells: every cell starts
/// hidden with the tile types of the rules as its candidates, and one scan
/// row by row reveals them all.
///
/// Every cell of the result is revealed, as a tile type that could be drawn
/// from the tile types of the rules that the rules let stand below the cell
/// above and right of the cell to the left: one of these with a frequency
/// above 0, or the invalid tile where there is none. Without rules, or
/// without frequencies, every cell is the invalid tile.
pub fn synthesize(generation: &Generation, width: usize, height: usize) -> (board: Vec<Vec<Tile>>)
    ensures
        rectangular(grid_of(board@), width as int, height as int),
        forall|x: int, y: int|
            0 <= x < width && 0 <= y < height ==> #[trigger] grid_of(board@)[y][x] is Revealed,
        forall|x: int, y: int|
            0 <= x < width && 0 <= y < height ==> #[trigger] settled(
                grid_of(board@),
                tiles_of(generation.ruleset@),
                generation.ruleset@,
                generation.frequencies@,
                x,
                y,
            ),
        generation.ruleset@.is_empty() || generation.frequencies@.dom().is_empty() ==> forall|
            x: int,
            y: int,
        |
            0 <= x < width && 0 <= y < height ==> #[trigger] grid_of(board@)[y][x]
                == Cell::Revealed(TileType::invalid()),
{
    let alphabet = get_all_tile_types(&generation.ruleset);
    let mut board = blank_board(&alphabet, width, height);
    let ghost rules = generation.ruleset@;
    let ghost frequencies = generation.frequencies@;
    proof {
        let grid = grid_of(board@);
        assert forall|x: int, y: int|
            0 <= x < width && 0 <= y < height implies #[trigger] cell_state(
            grid,
            alphabet@,
            rules,
            frequencies,
            x,
            y,
            0,
            0,
        ) by {
            assert(pending(grid, alphabet@, rules, x, y, 0, 0) =~= alphabet@);
        }
    }
    let mut y: usize = 0;
    while y < height
        invariant
            y <= height,
            alphabet@ == tiles_of(generation.ruleset@),
            rules == generation.ruleset@,
            frequencies == generation.frequencies@,
            scan_state(
                grid_of(board@),
                alphabet@,
                rules,
                frequencies,
                width as int,
                height as int,
                0,
                y as int,
            ),
        decreases height - y,
    {
        let mut x: usize = 0;
        while x < width
            invariant
                x <= width,
                y < height,
                rules == generation.ruleset@,
                frequencies == generation.frequencies@,
                scan_state(
                    grid_of(board@),
                    alphabet@,
                    rules,
                    frequencies,
                    width as int,
                    height as int,
                    x as int,
                    y as int,
                ),
            decreases width - x,
        {
            let ghost before = grid_of(board@);
            proof {
                assert(cell_state(
                    before,
                    alphabet@,
                    rules,
                    frequencies,
                    x as int,
                    y as int,
                    x as int,
                    y as int,
                ));
            }
            reveal_cell(board.as_mut_slice(), generation, x, y);
            proof {
                let after = grid_of(board@);
                let tile = after[y as int][x as int]->Revealed_0;
                lemma_scan_step(
                    before,
                    alphabet@,
                    rules,
                    frequencies,
                    width as int,
                    height as int,
                    x as int,
                    y as int,
                    tile,
                );
            }
            x += 1;
        }
        proof {
            lemma_scan_next_row(
                grid_of(board@),
                alphabet@,
                rules,
                frequencies,
                width as int,
                height as int,
                y as int,
            );
        }
        y += 1;
    }
    proof {
        let grid = grid_of(board@);
        assert forall|x: int, y: int| 0 <= x < width && 0 <= y < height implies #[trigger] settled(
            grid,
            alphabet@,
            rules,
            frequencies,
            x,
            y,
        ) by {
            assert(cell_state(
                grid,
                alphabet@,
                rules,
                frequencies,
                x,
                y,
                0,
                height as int,
            ));
        }
        assert forall|x: int, y: int|
            0 <= x < width && 0 <= y < height implies #[trigger] grid[y][x] is Revealed by {
            assert(settled(grid, alphabet@, rules, frequencies, x, y));
        }
        if rules.is_empty() || frequencies.dom().is_empty() {
            assert forall|x: int, y: int|
                0 <= x < width && 0 <= y < height implies #[trigger] grid[y][x] == Cell::Revealed(
                TileType::invalid(),
            ) by {
                assert(settled(grid, alphabet@, rules, frequencies, x, y));
            }
        }
    }
    board
}

} // verus!