//! Move selection: the heuristics that rate a placement and the strategies
//! that pick one.

pub mod advanced_strategies;
pub mod benchmark;
pub mod evaluator;
pub mod flood;
pub mod heuristics;
pub mod optimization;
pub mod optimized_evaluator;
pub mod strategies;

use vstd::prelude::*;
use crate::ai::advanced_strategies::{
    advanced_balanced, advanced_rating, aggressive_expansion, aggressive_rating, all_wf,
    blocking_rating, defensive, defensive_rating, opportunistic, opportunistic_rating,
    strategic_blocking, territorial_control, territorial_rating,
};
use crate::ai::evaluator::{evaluate_rating, select_best_placement};
use crate::ai::strategies::{
    balanced, balanced_rating, chosen_last, greedy_expansion, greedy_rating,
};
use crate::game_state::{GameState, GameStateView};
use crate::placement::Placement;

verus! {

/// The ways of choosing a move.
#[derive(Debug, Clone, Copy, PartialEq, Eq, Structural)]
pub enum AIStrategy {
    /// Add as many cells as possible.
    GreedyExpansion,
    /// Weigh cells added against contact with the player's territory.
    Balanced,
    /// Rank by the plain evaluation.
    Evaluator,
    /// The strategy to use where none is named: the combined score.
    Default,
    /// Open room to grow.
    AggressiveExpansion,
    /// Attack where the opponent stands thin.
    Opportunistic,
    /// Consolidate the player's territory.
    Defensive,
    /// Deny the opponent room.
    StrategicBlocking,
    /// The combined score of all signals.
    AdvancedBalanced,
    /// Hold and extend territory.
    TerritorialControl,
}

impl Default for AIStrategy {
    fn default() -> (strategy: Self)
        ensures
            strategy == AIStrategy::AdvancedBalanced,
    {
        AIStrategy::AdvancedBalanced
    }
}

/// Whether `choice` is what `strategy` picks from `placements`. Every
/// strategy picks nothing from an empty list and a placement with the
/// greatest rating from any other, the last of them where several share it.
pub open spec fn picks(
    strategy: AIStrategy,
    placements: Seq<Placement>,
    state: GameStateView,
    choice: Option<Placement>,
) -> bool {
    match strategy {
        AIStrategy::GreedyExpansion => chosen_last(placements, greedy_rating(), choice),
        AIStrategy::Balanced => chosen_last(placements, balanced_rating(), choice),
        AIStrategy::Evaluator => chosen_last(placements, evaluate_rating(state), choice),
        AIStrategy::AggressiveExpansion => chosen_last(
            placements,
            aggressive_rating(state),
            choice,
        ),
        AIStrategy::Opportunistic => chosen_last(placements, opportunistic_rating(state), choice),
        AIStrategy::Defensive => chosen_last(placements, defensive_rating(state), choice),
        AIStrategy::StrategicBlocking => chosen_last(placements, blocking_rating(state), choice),
        AIStrategy::AdvancedBalanced | AIStrategy::Default => chosen_last(
            placements,
            advanced_rating(state),
            choice,
        ),
        AIStrategy::TerritorialControl => chosen_last(
            placements,
            territorial_rating(state),
            choice,
        ),
    }
}

/// No strategy picks anything from an empty list, and every strategy picks
/// something from any other.
pub proof fn lemma_picks_none_iff_empty(
    strategy: AIStrategy,
    placements: Seq<Placement>,
    state: GameStateView,
    choice: Option<Placement>,
)
    requires
        picks(strategy, placements, state, choice),
    ensures
        choice is None <==> placements.len() == 0,
{
}

/// Picks a move from `placements` by `strategy`.
pub fn select_move(
    placements: &[Placement],
    game_state: &GameState,
    strategy: AIStrategy,
) -> (choice: Option<Placement>)
    requires
        all_wf(placements@),
        game_state@.grid.wf(),
    ensures
        picks(strategy, placements@, game_state@, choice),
        choice is None <==> placements@.len() == 0,
{
    match strategy {
        AIStrategy::GreedyExpansion => greedy_expansion(placements),
        AIStrategy::Balanced => balanced(placements),
        AIStrategy::Evaluator => select_best_placement(placements, game_state),
        AIStrategy::AggressiveExpansion => aggressive_expansion(placements, game_state),
        AIStrategy::Opportunistic => opportunistic(placements, game_state),
        AIStrategy::Defensive => defensive(placements, game_state),
        AIStrategy::StrategicBlocking => strategic_blocking(placements, game_state),
        AIStrategy::AdvancedBalanced => advanced_balanced(placements, game_state),
        AIStrategy::TerritorialControl => territorial_control(placements, game_state),
        AIStrategy::Default => advanced_balanced(placements, game_state),
    }
}

/// Picks a move from `placements` by the default strategy.
pub fn select_move_default(placements: &[Placement], game_state: &GameState) -> (choice: Option<
    Placement,
>)
    requires
        all_wf(placements@),
        game_state@.grid.wf(),
    ensures
        picks(AIStrategy::Default, placements@, game_state@, choice),
        choice is None <==> placements@.len() == 0,
{
    select_move(placements, game_state, AIStrategy::Default)
}

} // verus!
