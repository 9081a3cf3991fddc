//! The plain evaluation: cells added, closeness to the centre of the board,
//! and contact with the player's territory; and the ranking by it.

use vstd::prelude::*;
use crate::game_state::{GameState, GameStateView, GridView, Position};
use crate::placement::{Placement, PlacementView};
use crate::ai::strategies::{choose_last, chosen_last, is_last_best};
use crate::score::{lemma_le_lt_transitive, whole, Ratio, Score};
use crate::utils::gap;

verus! {

/// The bonus for an anchor near the centre of the board, in hundredths: half
/// a point for each step by which the Manhattan distance to the centre cell
/// stays under fifteen.
pub open spec fn centrality(anchor: Position, grid: GridView) -> int {
    let distance = gap(anchor.x, (grid.width / 2) as usize) + gap(
        anchor.y,
        (grid.height / 2) as usize,
    );
    if distance < 15 {
        50 * (15 - distance)
    } else {
        0
    }
}

/// The plain evaluation of a placement: ten points for each cell added, the
/// bonus for an anchor near the centre, and one point for each cell of the
/// piece on the player's territory.
pub open spec fn evaluate_value(placement: PlacementView, state: GameStateView) -> Ratio {
    whole(
        1000 * placement.cells_added + centrality(placement.position, state.grid) + 100
            * placement.territory_touches,
    )
}

/// The rating by the plain evaluation on the board of `state`.
pub open spec fn evaluate_rating(state: GameStateView) -> spec_fn(PlacementView) -> Ratio {
    |p: PlacementView| evaluate_value(p, state)
}

/// The plain evaluation of a placement.
pub fn evaluate_placement(placement: &Placement, game_state: &GameState) -> (score: Score)
    ensures
        score.wf(),
        score@ == evaluate_value(placement@, game_state@),
{
    let center_x: usize = game_state.grid.width / 2;
    let center_y: usize = game_state.grid.height / 2;
    let px: usize = placement.position.x;
    let py: usize = placement.position.y;
    let dx: u128 = if px <= center_x {
        (center_x - px) as u128
    } else {
        (px - center_x) as u128
    };
    let dy: u128 = if py <= center_y {
        (center_y - py) as u128
    } else {
        (py - center_y) as u128
    };
    let distance: u128 = dx + dy;
    let bonus: u128 = if distance < 15 {
        50 * (15 - distance)
    } else {
        0
    };
    let cells: u128 = placement.cells_added as u128;
    let touches: u128 = placement.territory_touches as u128;
    Score::from_hundredths(1000 * cells + bonus + 100 * touches)
}

/// Whether `order` lists the indices of `values` from the greatest value
/// down, each index once, and equal values in the order of their indices.
pub open spec fn is_ranking(order: Seq<usize>, values: Seq<Ratio>) -> bool {
    &&& order.len() == values.len()
    &&& forall|k: int| 0 <= k < order.len() ==> #[trigger] order[k] < values.len()
    &&& forall|k: int, l: int|
        0 <= k < l < order.len() ==> {
            &&& #[trigger] order[k] != #[trigger] order[l]
            &&& values[order[l] as int].le(values[order[k] as int])
            &&& values[order[k] as int].le(values[order[l] as int]) ==> order[k] < order[l]
        }
}

/// The views of a list of scores.
pub open spec fn views(scores: Seq<Score>) -> Seq<Ratio> {
    Seq::new(scores.len(), |i: int| scores[i]@)
}

/// The indices of `scores` from the greatest score down; equal scores keep
/// the order of their indices.
pub fn stable_descending(scores: &Vec<Score>) -> (order: Vec<usize>)
    requires
        forall|i: int| 0 <= i < scores@.len() ==> (#[trigger] scores@[i]).wf(),
    ensures
        is_ranking(order@, views(scores@)),
{
    let ghost values = views(scores@);
    let mut order: Vec<usize> = Vec::new();
    let mut i: usize = 0;
    while i < scores.len()
        invariant
            i <= scores@.len(),
            values == views(scores@),
            forall|k: int| 0 <= k < scores@.len() ==> (#[trigger] scores@[k]).wf(),
            order@.len() == i,
            forall|k: int| 0 <= k < order@.len() ==> #[trigger] order@[k] < i,
            forall|k: int, l: int|
                0 <= k < l < order@.len() ==> {
                    &&& #[trigger] order@[k] != #[trigger] order@[l]
                    &&& values[order@[l] as int].le(values[order@[k] as int])
                    &&& values[order@[k] as int].le(values[order@[l] as int]) ==> order@[k]
                        < order@[l]
                },
        decreases scores.len() - i,
    {
        let mut pos: usize = 0;
        while pos < order.len() && scores[i].at_most(&scores[order[pos]])
            invariant
                pos <= order@.len(),
                i < scores@.len(),
                values == views(scores@),
                order@.len() == i,
                forall|k: int| 0 <= k < scores@.len() ==> (#[trigger] scores@[k]).wf(),
                forall|k: int| 0 <= k < order@.len() ==> #[trigger] order@[k] < i,
                forall|k: int|
                    0 <= k < pos ==> values[i as int].le(values[(#[trigger] order@[k]) as int]),
            decreases order@.len() - pos,
        {
            pos += 1;
        }
        let ghost old_order = order@;
        order.insert(pos, i);
        proof {
            let new_order = order@;
            assert forall|k: int| 0 <= k < new_order.len() implies #[trigger] new_order[k] < i
                + 1 by {
                if k < pos {
                    assert(new_order[k] == old_order[k]);
                } else if k > pos {
                    assert(new_order[k] == old_order[k - 1]);
                }
            }
            assert forall|k: int, l: int| 0 <= k < l < new_order.len() implies {
                &&& #[trigger] new_order[k] != #[trigger] new_order[l]
                &&& values[new_order[l] as int].le(values[new_order[k] as int])
                &&& values[new_order[k] as int].le(values[new_order[l] as int]) ==> new_order[k]
                    < new_order[l]
            } by {
                let a = if k < pos {
                    k
                } else {
                    k - 1
                };
                let b = if l < pos {
                    l
                } else {
                    l - 1
                };
                if k != pos {
                    assert(new_order[k] == old_order[a]);
                    assert(old_order[a] < i);
                }
                if l != pos {
                    assert(new_order[l] == old_order[b]);
                    assert(old_order[b] < i);
                }
                if k == pos {
                    let first = old_order[pos as int];
                    let later = old_order[b];
                    assert(first < i && later < i);
                    assert(values[first as int].lt(values[i as int]));
                    scores@[first as int].lemma_view_wf();
                    scores@[later as int].lemma_view_wf();
                    scores@[i as int].lemma_view_wf();
                    if b > pos {
                        assert(values[later as int].le(values[first as int]));
                    }
                    lemma_le_lt_transitive(
                        values[later as int],
                        values[first as int],
                        values[i as int],
                    );
                } else if l == pos {
                    assert(values[i as int].le(values[old_order[a] as int]));
                } else {
                    assert(a < b);
                }
            }
        }
        i += 1;
    }
    order
}

/// The ratings of a list of placements.
pub open spec fn ratings(
    placements: Seq<Placement>,
    rating: spec_fn(PlacementView) -> Ratio,
) -> Seq<Ratio> {
    Seq::new(placements.len(), |i: int| rating(placements[i]@))
}

/// Whether `ranked` holds the placements with their values from the
/// greatest value down, placements of equal value in the order in which the
/// list has them. The `i`-th of `values` is the value of the `i`-th
/// placement.
pub open spec fn is_ranked(
    placements: Seq<Placement>,
    values: Seq<Ratio>,
    ranked: Seq<(Placement, Score)>,
) -> bool {
    exists|order: Seq<usize>|
        {
            &&& #[trigger] is_ranking(order, values)
            &&& values.len() == placements.len()
            &&& ranked.len() == placements.len()
            &&& forall|k: int|
                0 <= k < ranked.len() ==> {
                    &&& (#[trigger] ranked[k]).0@ == placements[order[k] as int]@
                    &&& ranked[k].1.wf()
                    &&& ranked[k].1@ == values[order[k] as int]
                }
        }
}

/// Pairs the placements with the given scores and lists them from the
/// greatest score down; equal scores keep the order of the list.
pub fn rank_by(placements: &[Placement], scores: &Vec<Score>) -> (ranked: Vec<(Placement, Score)>)
    requires
        scores@.len() == placements@.len(),
        forall|i: int| 0 <= i < scores@.len() ==> (#[trigger] scores@[i]).wf(),
    ensures
        is_ranked(placements@, views(scores@), ranked@),
{
    let order = stable_descending(scores);
    let mut ranked: Vec<(Placement, Score)> = Vec::new();
    let mut k: usize = 0;
    while k < order.len()
        invariant
            k <= order@.len(),
            order@.len() == placements@.len(),
            scores@.len() == placements@.len(),
            forall|j: int| 0 <= j < order@.len() ==> #[trigger] order@[j] < placements@.len(),
            forall|i: int| 0 <= i < scores@.len() ==> (#[trigger] scores@[i]).wf(),
            ranked@.len() == k,
            forall|j: int|
                0 <= j < k ==> {
                    &&& (#[trigger] ranked@[j]).0@ == placements@[order@[j] as int]@
                    &&& ranked@[j].1.wf()
                    &&& ranked@[j].1@ == views(scores@)[order@[j] as int]
                },
        decreases order.len() - k,
    {
        let index = order[k];
        ranked.push((placements[index].clone(), scores[index]));
        k += 1;
    }
    ranked
}

/// The placements with their plain evaluations, from the greatest down;
/// placements of equal evaluation keep the order of the list.
pub fn rank_placements(placements: &[Placement], game_state: &GameState) -> (ranked: Vec<
    (Placement, Score),
>)
    ensures
        is_ranked(placements@, ratings(placements@, evaluate_rating(game_state@)), ranked@),
{
    let mut scores: Vec<Score> = Vec::new();
    let mut i: usize = 0;
    while i < placements.len()
        invariant
            i <= placements@.len(),
            scores@.len() == i,
            forall|k: int|
                0 <= k < i ==> (#[trigger] scores@[k]).wf() && scores@[k]@ == evaluate_value(
                    placements@[k]@,
                    game_state@,
                ),
        decreases placements.len() - i,
    {
        scores.push(evaluate_placement(&placements[i], game_state));
        i += 1;
    }
    assert(views(scores@) =~= ratings(placements@, evaluate_rating(game_state@)));
    rank_by(placements, &scores)
}

/// Whether the `i`-th placement has the greatest rating and every earlier
/// one a smaller rating.
pub open spec fn is_first_best(
    placements: Seq<Placement>,
    rating: spec_fn(PlacementView) -> Ratio,
    i: int,
) -> bool {
    &&& 0 <= i < placements.len()
    &&& forall|j: int|
        0 <= j < placements.len() ==> rating((#[trigger] placements[j])@).le(rating(placements[i]@))
    &&& forall|j: int| 0 <= j < i ==> rating((#[trigger] placements[j])@).lt(rating(placements[i]@))
}

/// At most one placement is the first of the best.
pub proof fn lemma_first_best_unique(
    placements: Seq<Placement>,
    rating: spec_fn(PlacementView) -> Ratio,
    i: int,
    j: int,
)
    requires
        is_first_best(placements, rating, i),
        is_first_best(placements, rating, j),
    ensures
        i == j,
{
    if i < j {
        assert(rating(placements[i]@).lt(rating(placements[j]@)));
        assert(rating(placements[j]@).le(rating(placements[i]@)));
    } else if j < i {
        assert(rating(placements[j]@).lt(rating(placements[i]@)));
        assert(rating(placements[i]@).le(rating(placements[j]@)));
    }
}

/// A ranking lists every index.
pub proof fn lemma_ranking_covers(order: Seq<usize>, values: Seq<Ratio>, j: int)
    requires
        is_ranking(order, values),
        0 <= j < values.len(),
    ensures
        exists|k: int| 0 <= k < order.len() && #[trigger] order[k] == j,
{
    let n = values.len() as int;
    let listed = Seq::new(order.len(), |k: int| order[k] as int);
    assert forall|k: int, l: int| 0 <= k < listed.len() && 0 <= l < listed.len() && k != l implies listed[k]
        != listed[l] by {
        if k < l {
            assert(order[k] != order[l]);
        } else {
            assert(order[l] != order[k]);
        }
    }
    listed.unique_seq_to_set();
    vstd::set_lib::lemma_int_range(0, n);
    assert forall|v: int| listed.to_set().contains(v) implies vstd::set_lib::set_int_range(
        0,
        n,
    ).contains(v) by {
        let k = choose|k: int| 0 <= k < listed.len() && listed[k] == v;
        assert(order[k] < values.len());
    }
    vstd::seq_lib::seq_to_set_is_finite(listed);
    vstd::set_lib::lemma_subset_equality(listed.to_set(), vstd::set_lib::set_int_range(0, n));
    assert(vstd::set_lib::set_int_range(0, n).contains(j));
    assert(listed.contains(j));
    let k = choose|k: int| 0 <= k < listed.len() && listed[k] == j;
    assert(order[k] == j);
}

/// The head of a ranking is the first of the placements with the greatest
/// rating; the selection, which takes the last of them, picks a placement of
/// the same rating.
pub proof fn lemma_ranking_head(
    placements: Seq<Placement>,
    rating: spec_fn(PlacementView) -> Ratio,
    ranked: Seq<(Placement, Score)>,
)
    requires
        placements.len() > 0,
        is_ranked(placements, ratings(placements, rating), ranked),
    ensures
        exists|i: int|
            is_first_best(placements, rating, i) && ranked[0].0@ == (#[trigger] placements[i])@,
        forall|j: int| #[trigger]
            is_last_best(placements, rating, j) ==> ranked[0].1@.same(rating(placements[j]@)),
{
    let values = ratings(placements, rating);
    let order = choose|order: Seq<usize>|
        {
            &&& #[trigger] is_ranking(order, values)
            &&& values.len() == placements.len()
            &&& ranked.len() == placements.len()
            &&& forall|k: int|
                0 <= k < ranked.len() ==> {
                    &&& (#[trigger] ranked[k]).0@ == placements[order[k] as int]@
                    &&& ranked[k].1.wf()
                    &&& ranked[k].1@ == values[order[k] as int]
                }
        };
    let i = order[0] as int;
    assert(ranked[0].0@ == placements[i]@);
    assert forall|j: int| 0 <= j < placements.len() implies rating(
        (#[trigger] placements[j])@,
    ).le(rating(placements[i]@)) && (j < i ==> rating(placements[j]@).lt(rating(placements[i]@))) by {
        lemma_ranking_covers(order, values, j);
        let k = choose|k: int| 0 <= k < order.len() && #[trigger] order[k] == j;
        assert(values[j] == rating(placements[j]@));
        assert(values[i] == rating(placements[i]@));
        if k > 0 {
            assert(order[0] != order[k]);
            assert(values[order[k] as int].le(values[order[0] as int]));
        }
    }
    assert(is_first_best(placements, rating, i));
    assert(ranked[0].1@ == values[i]);
    assert forall|j: int| #[trigger] is_last_best(placements, rating, j) implies ranked[0].1@.same(
        rating(placements[j]@),
    ) by {
        assert(rating(placements[j]@).le(rating(placements[i]@)));
        assert(rating(placements[i]@).le(rating(placements[j]@)));
    }
}

/// Picks the placement with the greatest plain evaluation; the last of them
/// where several share it.
pub fn select_best_placement(placements: &[Placement], game_state: &GameState) -> (choice: Option<
    Placement,
>)
    ensures
        chosen_last(placements@, evaluate_rating(game_state@), choice),
{
    let rate = |p: &Placement| -> (s: Score)
        ensures
            s.wf(),
            s@ == evaluate_value(p@, game_state@),
        { evaluate_placement(p, game_state) };
    choose_last(placements, rate, Ghost(evaluate_rating(game_state@)))
}

} // verus!
