//! Selection and ranking by the scores of one cached pass.

use vstd::prelude::*;
use crate::ai::advanced_strategies::all_wf;
use crate::ai::evaluator::{is_ranked, rank_by, views};
use crate::ai::heuristics::{advanced_score, advanced_value};
use crate::ai::optimization::{all_fit, batch_values, BatchScorer};
use crate::ai::strategies::last_best_index;
use crate::game_state::GameState;
use crate::placement::Placement;
use crate::score::{Ratio, Score};

verus! {

/// Whether `choice` is what the greatest of `values` picks from
/// `placements`, the `i`-th value being that of the `i`-th placement:
/// nothing from an empty list, else the placement with the greatest value,
/// and among several of them the one that comes last.
pub open spec fn chosen_last_of(
    placements: Seq<Placement>,
    values: Seq<Ratio>,
    choice: Option<Placement>,
) -> bool {
    match choice {
        None => placements.len() == 0,
        Some(picked) => exists|i: int|
            {
                &&& 0 <= i < placements.len()
                &&& picked@ == (#[trigger] placements[i])@
                &&& forall|j: int| 0 <= j < values.len() ==> (#[trigger] values[j]).le(values[i])
                &&& forall|j: int| i < j < values.len() ==> (#[trigger] values[j]).lt(values[i])
            },
    }
}

fn scores_of(scored: &Vec<(Placement, Score)>) -> (scores: Vec<Score>)
    ensures
        scores@.len() == scored@.len(),
        forall|i: int| 0 <= i < scores@.len() ==> #[trigger] scores@[i] == scored@[i].1,
{
    let mut scores: Vec<Score> = Vec::new();
    let mut i: usize = 0;
    while i < scored.len()
        invariant
            i <= scored@.len(),
            scores@.len() == i,
            forall|k: int| 0 <= k < i ==> #[trigger] scores@[k] == scored@[k].1,
        decreases scored.len() - i,
    {
        scores.push(scored[i].1);
        i += 1;
    }
    scores
}

/// Picks the placement with the greatest score of a cached pass over the
/// list; the last of them where several share it.
pub fn select_best_placement_optimized(placements: &[Placement], game_state: &GameState) -> (choice:
    Option<Placement>)
    requires
        all_wf(placements@),
        all_fit(placements@),
        game_state@.grid.wf(),
    ensures
        chosen_last_of(placements@, batch_values(placements@, game_state@), choice),
{
    if placements.len() == 0 {
        return None;
    }
    let mut scorer = BatchScorer::new();
    let scored = scorer.score_all(placements, game_state);
    let scores = scores_of(&scored);
    let best = last_best_index(&scores);
    let ghost values = batch_values(placements@, game_state@);
    proof {
        assert forall|j: int| 0 <= j < values.len() implies (#[trigger] values[j]).le(
            values[best as int],
        ) by {
            assert(scores@[j]@.le(scores@[best as int]@));
        }
        assert forall|j: int| best < j < values.len() implies (#[trigger] values[j]).lt(
            values[best as int],
        ) by {
            assert(scores@[j]@.lt(scores@[best as int]@));
        }
    }
    Some(placements[best].clone())
}

/// The combined score of one placement, computed without a cache.
pub fn score_single_fast(placement: &Placement, game_state: &GameState) -> (score: Score)
    requires
        placement.wf(),
        game_state@.grid.wf(),
    ensures
        score.wf(),
        score@ == advanced_value(placement@, game_state@),
{
    advanced_score(placement, game_state)
}

/// The placements with their scores of a cached pass over the list, from the
/// greatest score down; placements of equal score keep the order of the list.
pub fn rank_placements_optimized(placements: &[Placement], game_state: &GameState) -> (ranked: Vec<
    (Placement, Score),
>)
    requires
        all_wf(placements@),
        all_fit(placements@),
        game_state@.grid.wf(),
    ensures
        is_ranked(placements@, batch_values(placements@, game_state@), ranked@),
{
    let mut scorer = BatchScorer::new();
    let scored = scorer.score_all(placements, game_state);
    let scores = scores_of(&scored);
    assert(views(scores@) =~= batch_values(placements@, game_state@));
    rank_by(placements, &scores)
}

} // verus!
