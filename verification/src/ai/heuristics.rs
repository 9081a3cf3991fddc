//! The signals that rate a placement: how much empty space it opens, how
//! thin the opponent stands around it, how dense the player's own territory
//! is nearby, and how much of the board's edge it holds.

use vstd::prelude::*;
use crate::ai::flood::{fill, reach_count};
use crate::game_state::{GameState, GameStateView, Grid, GridView, Position};
use crate::placement::{landing, lands_out, Placement, PlacementView};
use crate::score::{mixed, whole, Ratio, Score};

verus! {

/// Of the cells `cells` of a piece anchored at `anchor`, those that land on
/// the board, as board cells and in the same order.
pub open spec fn on_board(grid: GridView, anchor: Position, cells: Seq<Position>) -> Seq<Position>
    decreases cells.len(),
{
    if cells.len() == 0 {
        Seq::empty()
    } else {
        let rest = on_board(grid, anchor, cells.drop_last());
        if lands_out(grid, anchor, cells.last()) {
            rest
        } else {
            rest.push(landing(anchor, cells.last()))
        }
    }
}

/// The board cells that a placement covers, in the row-major order of the
/// piece. Solid cells that land off the board are left out.
pub open spec fn covered(placement: PlacementView, grid: GridView) -> Seq<Position> {
    on_board(grid, placement.position, placement.shape.filled_positions())
}

/// The sum of `term` over `cells`.
pub open spec fn total(cells: Seq<Position>, term: spec_fn(Position) -> nat) -> nat
    decreases cells.len(),
{
    if cells.len() == 0 {
        0
    } else {
        total(cells.drop_last(), term) + term(cells.last())
    }
}

/// 1 where column `x` of row `y` is a cell of somebody other than `player`,
/// else 0; 0 off the board.
pub open spec fn hostile_at(grid: GridView, player: u8, x: int, y: int) -> nat {
    if 0 <= x < grid.width && 0 <= y < grid.height && grid.rows[y][x].hostile_to(player) {
        1
    } else {
        0
    }
}

/// How many of the four cells next to `pos` somebody other than `player`
/// holds.
pub open spec fn hostile_neighbors(grid: GridView, player: u8, pos: Position) -> nat {
    hostile_at(grid, player, pos.x + 1, pos.y as int) + hostile_at(
        grid,
        player,
        pos.x - 1,
        pos.y as int,
    ) + hostile_at(grid, player, pos.x as int, pos.y + 1) + hostile_at(
        grid,
        player,
        pos.x as int,
        pos.y - 1,
    )
}

/// What one covered cell adds to the weak-position signal, in units of one
/// point and a half: 2 with fewer than two hostile neighbours, 1 with fewer
/// than four, 0 with four.
pub open spec fn weak_units(grid: GridView, player: u8, pos: Position) -> nat {
    let hostile = hostile_neighbors(grid, player, pos);
    if hostile < 2 {
        2
    } else if hostile < 4 {
        1
    } else {
        0
    }
}

/// The weak-position units of a cell, as a term to sum over cells.
pub open spec fn weak_term(grid: GridView, player: u8) -> spec_fn(Position) -> nat {
    |p: Position| weak_units(grid, player, p)
}

/// 1 where column `x` of row `y` is a cell of `player`, else 0; 0 off the
/// board.
pub open spec fn own_at(grid: GridView, player: u8, x: int, y: int) -> nat {
    if 0 <= x < grid.width && 0 <= y < grid.height && grid.rows[y][x].owned_by(player) {
        1
    } else {
        0
    }
}

/// How many cells of `player` lie within two steps of `center`, the centre
/// itself left out: the twelve cells at Manhattan distance 1 or 2.
pub open spec fn nearby_own(grid: GridView, player: u8, center: Position) -> nat {
    let x = center.x as int;
    let y = center.y as int;
    own_at(grid, player, x, y - 2) + own_at(grid, player, x - 1, y - 1) + own_at(
        grid,
        player,
        x,
        y - 1,
    ) + own_at(grid, player, x + 1, y - 1) + own_at(grid, player, x - 2, y) + own_at(
        grid,
        player,
        x - 1,
        y,
    ) + own_at(grid, player, x + 1, y) + own_at(grid, player, x + 2, y) + own_at(
        grid,
        player,
        x - 1,
        y + 1,
    ) + own_at(grid, player, x, y + 1) + own_at(grid, player, x + 1, y + 1) + own_at(
        grid,
        player,
        x,
        y + 2,
    )
}

/// The player's cells near a cell, as a term to sum over cells.
pub open spec fn nearby_term(grid: GridView, player: u8) -> spec_fn(Position) -> nat {
    |p: Position| nearby_own(grid, player, p)
}

/// What one covered cell adds to the edge signal, in points: 2 in a corner of
/// the board, 1 elsewhere on its border, 0 inside.
pub open spec fn edge_points(grid: GridView, pos: Position) -> nat {
    let on_side = pos.x == 0 || pos.x + 1 == grid.width;
    let on_end = pos.y == 0 || pos.y + 1 == grid.height;
    if on_side && on_end {
        2
    } else if on_side || on_end {
        1
    } else {
        0
    }
}

/// The edge points of a cell, as a term to sum over cells.
pub open spec fn edge_term(grid: GridView) -> spec_fn(Position) -> nat {
    |p: Position| edge_points(grid, p)
}

/// How many empty cells a flood fill from the covered cells counts.
pub open spec fn reach_of(placement: PlacementView, grid: GridView) -> int {
    reach_count(grid, covered(placement, grid)) as int
}

/// The weak-position signal of a placement, in units of one point and a half.
pub open spec fn weak_of(placement: PlacementView, state: GameStateView) -> int {
    total(covered(placement, state.grid), weak_term(state.grid, state.player_number)) as int
}

/// The sum, over the covered cells, of the player's cells near each.
pub open spec fn nearby_of(placement: PlacementView, state: GameStateView) -> int {
    total(covered(placement, state.grid), nearby_term(state.grid, state.player_number)) as int
}

/// The edge signal of a placement, in points.
pub open spec fn edge_of(placement: PlacementView, grid: GridView) -> int {
    total(covered(placement, grid), edge_term(grid)) as int
}

/// The flood-fill score: two points and a half for each empty cell reached.
pub open spec fn flood_fill_value(placement: PlacementView, state: GameStateView) -> Ratio {
    whole(250 * reach_of(placement, state.grid))
}

/// The weak-position score: three points for each covered cell with fewer
/// than two hostile neighbours, one and a half for each with two or three.
pub open spec fn weak_value(placement: PlacementView, state: GameStateView) -> Ratio {
    whole(150 * weak_of(placement, state))
}

/// The density score: eight tenths of a point for each of the player's cells
/// near a covered cell, averaged over the covered cells; zero where the
/// placement covers no cell of the board.
pub open spec fn density_value(placement: PlacementView, state: GameStateView) -> Ratio {
    mixed(0, 80 * nearby_of(placement, state), covered(placement, state.grid).len() as int)
}

/// The edge score: two points for each covered corner of the board, one for
/// each other covered border cell.
pub open spec fn edge_value(placement: PlacementView, grid: GridView) -> Ratio {
    whole(100 * edge_of(placement, grid))
}

/// The combined score: ten points for each cell added, then the flood-fill
/// score weighted 1.5, the weak-position score weighted 2, the density score
/// weighted 1.2 and the edge score weighted 0.5.
pub open spec fn advanced_value(placement: PlacementView, state: GameStateView) -> Ratio {
    mixed(
        1000 * placement.cells_added + 375 * reach_of(placement, state.grid) + 300 * weak_of(
            placement,
            state,
        ) + 50 * edge_of(placement, state.grid),
        96 * nearby_of(placement, state),
        covered(placement, state.grid).len() as int,
    )
}

/// The board cells that a placement covers, in the row-major order of the
/// piece.
pub fn covered_cells(placement: &Placement, grid: &Grid) -> (cells: Vec<Position>)
    requires
        placement.wf(),
    ensures
        cells@ == covered(placement@, grid@),
        forall|i: int| 0 <= i < cells@.len() ==> grid@.valid(#[trigger] cells@[i]),
{
    let solid = placement.shape.get_filled_positions();
    let anchor = placement.position;
    let mut cells: Vec<Position> = Vec::new();
    let mut i: usize = 0;
    while i < solid.len()
        invariant
            i <= solid.len(),
            anchor == placement.position,
            solid@ == placement@.shape.filled_positions(),
            cells@ == on_board(grid@, anchor, solid@.take(i as int)),
            forall|k: int| 0 <= k < cells@.len() ==> grid@.valid(#[trigger] cells@[k]),
        decreases solid.len() - i,
    {
        let p = solid[i];
        assert(solid@.take(i + 1).drop_last() =~= solid@.take(i as int));
        if p.x < grid.width && anchor.x < grid.width - p.x && p.y < grid.height && anchor.y
            < grid.height - p.y {
            cells.push(Position::new(anchor.x + p.x, anchor.y + p.y));
        }
        i += 1;
    }
    assert(solid@.take(i as int) =~= solid@);
    cells
}

fn hostile_cell(grid: &Grid, x: usize, y: usize, player: u8) -> (count: usize)
    requires
        grid@.wf(),
    ensures
        count == hostile_at(grid@, player, x as int, y as int),
{
    if x < grid.width && y < grid.height {
        assert(grid@.rows[y as int].len() == grid.width);
        if grid.cells[y][x].is_hostile_to(player) {
            1
        } else {
            0
        }
    } else {
        0
    }
}

/// How many of the four cells next to `pos` somebody other than `player_num`
/// holds.
pub fn count_hostile_neighbors(grid: &Grid, pos: Position, player_num: u8) -> (count: usize)
    requires
        grid@.wf(),
    ensures
        count == hostile_neighbors(grid@, player_num, pos),
{
    let right: usize = if pos.x < usize::MAX {
        hostile_cell(grid, pos.x + 1, pos.y, player_num)
    } else {
        0
    };
    let left: usize = if pos.x > 0 {
        hostile_cell(grid, pos.x - 1, pos.y, player_num)
    } else {
        0
    };
    let below: usize = if pos.y < usize::MAX {
        hostile_cell(grid, pos.x, pos.y + 1, player_num)
    } else {
        0
    };
    let above: usize = if pos.y > 0 {
        hostile_cell(grid, pos.x, pos.y - 1, player_num)
    } else {
        0
    };
    right + left + below + above
}

/// How many of the four cells next to `pos` the opponent of player 1 holds.
pub fn count_opponent_neighbors(grid: &Grid, pos: Position) -> (count: usize)
    requires
        grid@.wf(),
    ensures
        count == hostile_neighbors(grid@, 1, pos),
{
    count_hostile_neighbors(grid, pos, 1)
}

fn shifted(c: usize, d: i8) -> (r: Option<usize>)
    requires
        -2 <= d <= 2,
    ensures
        r == if 0 <= c + d <= usize::MAX {
            Some((c + d) as usize)
        } else {
            None::<usize>
        },
{
    if d >= 0 {
        let up: usize = d as usize;
        if c <= usize::MAX - up {
            Some(c + up)
        } else {
            None
        }
    } else {
        let down: usize = (-d) as usize;
        if c >= down {
            Some(c - down)
        } else {
            None
        }
    }
}

fn own_cell(grid: &Grid, center: Position, dx: i8, dy: i8, player: u8) -> (count: usize)
    requires
        grid@.wf(),
        -2 <= dx <= 2,
        -2 <= dy <= 2,
    ensures
        count == own_at(grid@, player, center.x + dx, center.y + dy),
{
    match (shifted(center.x, dx), shifted(center.y, dy)) {
        (Some(x), Some(y)) => {
            if x < grid.width && y < grid.height {
                assert(grid@.rows[y as int].len() == grid.width);
                if grid.cells[y][x].is_owned_by(player) {
                    1
                } else {
                    0
                }
            } else {
                0
            }
        },
        _ => 0,
    }
}

/// How many cells of `player_num` lie at Manhattan distance 1 or 2 from
/// `center`.
pub fn count_nearby_territory(grid: &Grid, center: Position, player_num: u8) -> (count: usize)
    requires
        grid@.wf(),
    ensures
        count == nearby_own(grid@, player_num, center),
        count <= 12,
{
    let a = own_cell(grid, center, 0, -2, player_num);
    let b = own_cell(grid, center, -1, -1, player_num);
    let c = own_cell(grid, center, 0, -1, player_num);
    let d = own_cell(grid, center, 1, -1, player_num);
    let e = own_cell(grid, center, -2, 0, player_num);
    let f = own_cell(grid, center, -1, 0, player_num);
    let g = own_cell(grid, center, 1, 0, player_num);
    let h = own_cell(grid, center, 2, 0, player_num);
    let i = own_cell(grid, center, -1, 1, player_num);
    let j = own_cell(grid, center, 0, 1, player_num);
    let k = own_cell(grid, center, 1, 1, player_num);
    let l = own_cell(grid, center, 0, 2, player_num);
    a + b + c + d + e + f + g + h + i + j + k + l
}

/// How many cells of player 1 lie at Manhattan distance 1 or 2 from `center`.
pub fn count_nearby_our_territory(grid: &Grid, center: Position) -> (count: usize)
    requires
        grid@.wf(),
    ensures
        count == nearby_own(grid@, 1, center),
{
    count_nearby_territory(grid, center, 1)
}

/// How many empty cells a flood fill from `start_positions` counts: the
/// empty cells, other than the starts themselves, that a walk from a start on
/// the board reaches over empty cells.
pub fn flood_fill_reachable(grid: &Grid, start_positions: &[Position]) -> (count: usize)
    requires
        grid@.wf(),
    ensures
        count == reach_count(grid@, start_positions@),
{
    fill(grid, start_positions, None)
}

/// How many empty cells a flood fill from the covered cells counts.
pub fn reachable_cells(placement: &Placement, game_state: &GameState) -> (count: usize)
    requires
        placement.wf(),
        game_state@.grid.wf(),
    ensures
        count == reach_of(placement@, game_state@.grid),
{
    let cells = covered_cells(placement, &game_state.grid);
    fill(&game_state.grid, cells.as_slice(), None)
}

/// The weak-position signal of a placement, in units of one point and a half.
pub fn weak_position_units(placement: &Placement, game_state: &GameState) -> (units: u128)
    requires
        placement.wf(),
        game_state@.grid.wf(),
    ensures
        units == weak_of(placement@, game_state@),
        units <= 2 * usize::MAX,
{
    let cells = covered_cells(placement, &game_state.grid);
    let ghost term = weak_term(game_state@.grid, game_state.player_number);
    let mut units: u128 = 0;
    let mut i: usize = 0;
    while i < cells.len()
        invariant
            game_state@.grid.wf(),
            i <= cells.len(),
            term == weak_term(game_state@.grid, game_state.player_number),
            units == total(cells@.take(i as int), term),
            units <= 2 * i,
        decreases cells.len() - i,
    {
        let hostile = count_hostile_neighbors(&game_state.grid, cells[i], game_state.player_number);
        assert(cells@.take(i + 1).drop_last() =~= cells@.take(i as int));
        if hostile < 2 {
            units = units + 2;
        } else if hostile < 4 {
            units = units + 1;
        }
        i += 1;
    }
    assert(cells@.take(i as int) =~= cells@);
    units
}

/// The sum, over the covered cells, of the player's cells near each, and the
/// number of covered cells.
pub fn nearby_territory(placement: &Placement, game_state: &GameState) -> (sums: (u128, usize))
    requires
        placement.wf(),
        game_state@.grid.wf(),
    ensures
        sums.0 == nearby_of(placement@, game_state@),
        sums.1 == covered(placement@, game_state@.grid).len(),
        sums.0 <= 12 * sums.1,
{
    let cells = covered_cells(placement, &game_state.grid);
    let ghost term = nearby_term(game_state@.grid, game_state.player_number);
    let mut sum: u128 = 0;
    let mut i: usize = 0;
    while i < cells.len()
        invariant
            game_state@.grid.wf(),
            i <= cells.len(),
            term == nearby_term(game_state@.grid, game_state.player_number),
            sum == total(cells@.take(i as int), term),
            sum <= 12 * i,
        decreases cells.len() - i,
    {
        let near = count_nearby_territory(&game_state.grid, cells[i], game_state.player_number);
        assert(cells@.take(i + 1).drop_last() =~= cells@.take(i as int));
        sum = sum + near as u128;
        i += 1;
    }
    assert(cells@.take(i as int) =~= cells@);
    (sum, cells.len())
}

/// The edge signal of a placement, in points.
pub fn edge_control_points(placement: &Placement, grid: &Grid) -> (points: u128)
    requires
        placement.wf(),
    ensures
        points == edge_of(placement@, grid@),
        points <= 2 * usize::MAX,
{
    let cells = covered_cells(placement, grid);
    let ghost term = edge_term(grid@);
    let mut points: u128 = 0;
    let mut i: usize = 0;
    while i < cells.len()
        invariant
            i <= cells.len(),
            term == edge_term(grid@),
            forall|k: int| 0 <= k < cells@.len() ==> grid@.valid(#[trigger] cells@[k]),
            points == total(cells@.take(i as int), term),
            points <= 2 * i,
        decreases cells.len() - i,
    {
        let pos = cells[i];
        assert(grid@.valid(cells@[i as int]));
        assert(cells@.take(i + 1).drop_last() =~= cells@.take(i as int));
        let on_side = pos.x == 0 || pos.x == grid.width - 1;
        let on_end = pos.y == 0 || pos.y == grid.height - 1;
        if on_side && on_end {
            points = points + 2;
        } else if on_side || on_end {
            points = points + 1;
        }
        i += 1;
    }
    assert(cells@.take(i as int) =~= cells@);
    points
}

/// Rates the empty space that a placement opens: two points and a half for
/// each empty cell that a flood fill from the covered cells counts. The
/// board is taken as it stands: with the piece put down first the fill
/// would count the same cells.
pub fn analyze_flood_fill(placement: &Placement, game_state: &GameState) -> (score: Score)
    requires
        placement.wf(),
        game_state@.grid.wf(),
    ensures
        score.wf(),
        score@ == flood_fill_value(placement@, game_state@),
{
    let reach = reachable_cells(placement, game_state);
    Score::from_hundredths(250 * (reach as u128))
}

/// Rates how thin the opponent stands around a placement.
pub fn detect_weak_positions(placement: &Placement, game_state: &GameState) -> (score: Score)
    requires
        placement.wf(),
        game_state@.grid.wf(),
    ensures
        score.wf(),
        score@ == weak_value(placement@, game_state@),
{
    let units = weak_position_units(placement, game_state);
    Score::from_hundredths(150 * units)
}

/// Rates how dense the player's territory is around a placement.
pub fn analyze_density(placement: &Placement, game_state: &GameState) -> (score: Score)
    requires
        placement.wf(),
        game_state@.grid.wf(),
    ensures
        score.wf(),
        score@ == density_value(placement@, game_state@),
{
    let (sum, count) = nearby_territory(placement, game_state);
    Score::from_mixed(0, 80 * sum, count)
}

/// Rates how much of the board's border a placement holds.
pub fn analyze_edge_control(placement: &Placement, grid: &Grid) -> (score: Score)
    requires
        placement.wf(),
    ensures
        score.wf(),
        score@ == edge_value(placement@, grid@),
{
    let points = edge_control_points(placement, grid);
    Score::from_hundredths(100 * points)
}

/// The combined score of a placement.
pub fn advanced_score(placement: &Placement, game_state: &GameState) -> (score: Score)
    requires
        placement.wf(),
        game_state@.grid.wf(),
    ensures
        score.wf(),
        score@ == advanced_value(placement@, game_state@),
{
    let reach = reachable_cells(placement, game_state);
    let weak = weak_position_units(placement, game_state);
    let (sum, count) = nearby_territory(placement, game_state);
    let edge = edge_control_points(placement, &game_state.grid);
    let base: u128 = 1000 * (placement.cells_added as u128) + 375 * (reach as u128) + 300 * weak
        + 50 * edge;
    Score::from_mixed(base, 96 * sum, count)
}

} // verus!
