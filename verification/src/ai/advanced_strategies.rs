//! Strategies that rate a placement by the board around it.

use vstd::prelude::*;
use crate::ai::heuristics::{
    advanced_score, advanced_value, covered, edge_control_points, edge_of, nearby_of,
    nearby_territory, reach_of, reachable_cells, weak_of, weak_position_units,
};
use crate::ai::strategies::{choose_last, chosen_last};
use crate::game_state::{GameState, GameStateView};
use crate::placement::{Placement, PlacementView};
use crate::score::{mixed, whole, Ratio, Score};

verus! {

/// Whether every placement of the list holds a well-formed piece.
pub open spec fn all_wf(placements: Seq<Placement>) -> bool {
    forall|i: int| 0 <= i < placements.len() ==> (#[trigger] placements[i]).wf()
}

/// Ten points for each cell added, and the flood-fill score weighted 2.
pub open spec fn aggressive_value(placement: PlacementView, state: GameStateView) -> Ratio {
    whole(1000 * placement.cells_added + 500 * reach_of(placement, state.grid))
}

/// The weak-position score weighted 2.5, and five points for each cell added.
pub open spec fn opportunistic_value(placement: PlacementView, state: GameStateView) -> Ratio {
    whole(375 * weak_of(placement, state) + 500 * placement.cells_added)
}

/// The density score weighted 2, two points for each cell of the piece on the
/// player's territory, and the edge score weighted 1.5.
pub open spec fn defensive_value(placement: PlacementView, state: GameStateView) -> Ratio {
    mixed(
        200 * placement.territory_touches + 150 * edge_of(placement, state.grid),
        160 * nearby_of(placement, state),
        covered(placement, state.grid).len() as int,
    )
}

/// The weak-position score weighted 1.8, and three points each for the cells
/// of the piece on the player's territory and for the cells added.
pub open spec fn blocking_value(placement: PlacementView, state: GameStateView) -> Ratio {
    whole(
        270 * weak_of(placement, state) + 300 * placement.territory_touches + 300
            * placement.cells_added,
    )
}

/// Eight points for each cell added, the flood-fill score weighted 1.5, a
/// point and a half for each cell of the piece on the player's territory,
/// and the edge score weighted 0.8.
pub open spec fn territorial_value(placement: PlacementView, state: GameStateView) -> Ratio {
    whole(
        800 * placement.cells_added + 375 * reach_of(placement, state.grid) + 150
            * placement.territory_touches + 80 * edge_of(placement, state.grid),
    )
}

/// The rating of the aggressive strategy on the board of `state`.
pub open spec fn aggressive_rating(state: GameStateView) -> spec_fn(PlacementView) -> Ratio {
    |p: PlacementView| aggressive_value(p, state)
}

/// The rating of the opportunistic strategy on the board of `state`.
pub open spec fn opportunistic_rating(state: GameStateView) -> spec_fn(PlacementView) -> Ratio {
    |p: PlacementView| opportunistic_value(p, state)
}

/// The rating of the defensive strategy on the board of `state`.
pub open spec fn defensive_rating(state: GameStateView) -> spec_fn(PlacementView) -> Ratio {
    |p: PlacementView| defensive_value(p, state)
}

/// The rating of the blocking strategy on the board of `state`.
pub open spec fn blocking_rating(state: GameStateView) -> spec_fn(PlacementView) -> Ratio {
    |p: PlacementView| blocking_value(p, state)
}

/// The rating by the combined score on the board of `state`.
pub open spec fn advanced_rating(state: GameStateView) -> spec_fn(PlacementView) -> Ratio {
    |p: PlacementView| advanced_value(p, state)
}

/// The rating of the territorial strategy on the board of `state`.
pub open spec fn territorial_rating(state: GameStateView) -> spec_fn(PlacementView) -> Ratio {
    |p: PlacementView| territorial_value(p, state)
}

/// The score of a placement under the aggressive strategy.
pub fn aggressive_score(placement: &Placement, game_state: &GameState) -> (score: Score)
    requires
        placement.wf(),
        game_state@.grid.wf(),
    ensures
        score.wf(),
        score@ == aggressive_value(placement@, game_state@),
{
    let reach: u128 = reachable_cells(placement, game_state) as u128;
    let cells: u128 = placement.cells_added as u128;
    Score::from_hundredths(1000 * cells + 500 * reach)
}

/// The score of a placement under the opportunistic strategy.
pub fn opportunistic_score(placement: &Placement, game_state: &GameState) -> (score: Score)
    requires
        placement.wf(),
        game_state@.grid.wf(),
    ensures
        score.wf(),
        score@ == opportunistic_value(placement@, game_state@),
{
    let weak: u128 = weak_position_units(placement, game_state);
    let cells: u128 = placement.cells_added as u128;
    Score::from_hundredths(375 * weak + 500 * cells)
}

/// The score of a placement under the defensive strategy.
pub fn defensive_score(placement: &Placement, game_state: &GameState) -> (score: Score)
    requires
        placement.wf(),
        game_state@.grid.wf(),
    ensures
        score.wf(),
        score@ == defensive_value(placement@, game_state@),
{
    let (sum, count) = nearby_territory(placement, game_state);
    let edge: u128 = edge_control_points(placement, &game_state.grid);
    let touches: u128 = placement.territory_touches as u128;
    Score::from_mixed(200 * touches + 150 * edge, 160 * sum, count)
}

/// The score of a placement under the blocking strategy.
pub fn strategic_blocking_score(placement: &Placement, game_state: &GameState) -> (score: Score)
    requires
        placement.wf(),
        game_state@.grid.wf(),
    ensures
        score.wf(),
        score@ == blocking_value(placement@, game_state@),
{
    let weak: u128 = weak_position_units(placement, game_state);
    let touches: u128 = placement.territory_touches as u128;
    let cells: u128 = placement.cells_added as u128;
    Score::from_hundredths(270 * weak + 300 * touches + 300 * cells)
}

/// The score of a placement under the territorial strategy.
pub fn territorial_control_score(placement: &Placement, game_state: &GameState) -> (score: Score)
    requires
        placement.wf(),
        game_state@.grid.wf(),
    ensures
        score.wf(),
        score@ == territorial_value(placement@, game_state@),
{
    let reach: u128 = reachable_cells(placement, game_state) as u128;
    let edge: u128 = edge_control_points(placement, &game_state.grid);
    let touches: u128 = placement.territory_touches as u128;
    let cells: u128 = placement.cells_added as u128;
    Score::from_hundredths(800 * cells + 375 * reach + 150 * touches + 80 * edge)
}

/// Picks the placement that opens the most room to grow.
pub fn aggressive_expansion(placements: &[Placement], game_state: &GameState) -> (choice: Option<
    Placement,
>)
    requires
        all_wf(placements@),
        game_state@.grid.wf(),
    ensures
        chosen_last(placements@, aggressive_rating(game_state@), choice),
{
    let rate = |p: &Placement| -> (s: Score)
        requires
            p.wf(),
        ensures
            s.wf(),
            s@ == aggressive_value(p@, game_state@),
        { aggressive_score(p, game_state) };
    choose_last(placements, rate, Ghost(aggressive_rating(game_state@)))
}

/// Picks the placement that best attacks where the opponent stands thin.
pub fn opportunistic(placements: &[Placement], game_state: &GameState) -> (choice: Option<
    Placement,
>)
    requires
        all_wf(placements@),
        game_state@.grid.wf(),
    ensures
        chosen_last(placements@, opportunistic_rating(game_state@), choice),
{
    let rate = |p: &Placement| -> (s: Score)
        requires
            p.wf(),
        ensures
            s.wf(),
            s@ == opportunistic_value(p@, game_state@),
        { opportunistic_score(p, game_state) };
    choose_last(placements, rate, Ghost(opportunistic_rating(game_state@)))
}

/// Picks the placement that best consolidates the player's territory.
pub fn defensive(placements: &[Placement], game_state: &GameState) -> (choice: Option<Placement>)
    requires
        all_wf(placements@),
        game_state@.grid.wf(),
    ensures
        chosen_last(placements@, defensive_rating(game_state@), choice),
{
    let rate = |p: &Placement| -> (s: Score)
        requires
            p.wf(),
        ensures
            s.wf(),
            s@ == defensive_value(p@, game_state@),
        { defensive_score(p, game_state) };
    choose_last(placements, rate, Ghost(defensive_rating(game_state@)))
}

/// Picks the placement that best denies the opponent room.
pub fn strategic_blocking(placements: &[Placement], game_state: &GameState) -> (choice: Option<
    Placement,
>)
    requires
        all_wf(placements@),
        game_state@.grid.wf(),
    ensures
        chosen_last(placements@, blocking_rating(game_state@), choice),
{
    let rate = |p: &Placement| -> (s: Score)
        requires
            p.wf(),
        ensures
            s.wf(),
            s@ == blocking_value(p@, game_state@),
        { strategic_blocking_score(p, game_state) };
    choose_last(placements, rate, Ghost(blocking_rating(game_state@)))
}

/// Picks the placement with the greatest combined score.
pub fn advanced_balanced(placements: &[Placement], game_state: &GameState) -> (choice: Option<
    Placement,
>)
    requires
        all_wf(placements@),
        game_state@.grid.wf(),
    ensures
        chosen_last(placements@, advanced_rating(game_state@), choice),
{
    let rate = |p: &Placement| -> (s: Score)
        requires
            p.wf(),
        ensures
            s.wf(),
            s@ == advanced_value(p@, game_state@),
        { advanced_score(p, game_state) };
    choose_last(placements, rate, Ghost(advanced_rating(game_state@)))
}

/// Picks the placement that best holds and extends territory.
pub fn territorial_control(placements: &[Placement], game_state: &GameState) -> (choice: Option<
    Placement,
>)
    requires
        all_wf(placements@),
        game_state@.grid.wf(),
    ensures
        chosen_last(placements@, territorial_rating(game_state@), choice),
{
    let rate = |p: &Placement| -> (s: Score)
        requires
            p.wf(),
        ensures
            s.wf(),
            s@ == territorial_value(p@, game_state@),
        { territorial_control_score(p, game_state) };
    choose_last(placements, rate, Ghost(territorial_rating(game_state@)))
}

} // verus!
