//! Strategies that look at a placement's own counts only, and the rule by
//! which every strategy picks among rated placements.

use vstd::prelude::*;
use crate::placement::{Placement, PlacementView};
use crate::score::{lemma_le_transitive, lemma_whole_order, whole, Ratio, Score};

verus! {

/// Whether `choice` is what a strategy with the given rating picks from
/// `placements`: nothing from an empty list, else the placement with the
/// greatest rating, and among several of them the one that comes last.
pub open spec fn chosen_last(
    placements: Seq<Placement>,
    rating: spec_fn(PlacementView) -> Ratio,
    choice: Option<Placement>,
) -> bool {
    match choice {
        None => placements.len() == 0,
        Some(picked) => exists|i: int|
            is_last_best(placements, rating, i) && picked@ == placements[i]@,
    }
}

/// Whether the `i`-th placement has the greatest rating and every later one
/// a smaller rating.
pub open spec fn is_last_best(
    placements: Seq<Placement>,
    rating: spec_fn(PlacementView) -> Ratio,
    i: int,
) -> bool {
    &&& 0 <= i < placements.len()
    &&& forall|j: int|
        0 <= j < placements.len() ==> rating((#[trigger] placements[j])@).le(rating(placements[i]@))
    &&& forall|j: int|
        i < j < placements.len() ==> rating((#[trigger] placements[j])@).lt(rating(placements[i]@))
}

/// At most one placement is the last of the best: the rule picks a placement,
/// not one of several.
pub proof fn lemma_last_best_unique(
    placements: Seq<Placement>,
    rating: spec_fn(PlacementView) -> Ratio,
    i: int,
    j: int,
)
    requires
        is_last_best(placements, rating, i),
        is_last_best(placements, rating, j),
    ensures
        i == j,
{
    if i < j {
        assert(rating(placements[j]@).lt(rating(placements[i]@)));
        assert(rating(placements[i]@).le(rating(placements[j]@)));
    } else if j < i {
        assert(rating(placements[i]@).lt(rating(placements[j]@)));
        assert(rating(placements[j]@).le(rating(placements[i]@)));
    }
}

/// The index of the last of the greatest of `scores`.
pub fn last_best_index(scores: &Vec<Score>) -> (best: usize)
    requires
        scores@.len() > 0,
        forall|i: int| 0 <= i < scores@.len() ==> (#[trigger] scores@[i]).wf(),
    ensures
        best < scores@.len(),
        forall|j: int|
            0 <= j < scores@.len() ==> (#[trigger] scores@[j])@.le(scores@[best as int]@),
        forall|j: int|
            best < j < scores@.len() ==> (#[trigger] scores@[j])@.lt(scores@[best as int]@),
{
    let mut best: usize = 0;
    let mut i: usize = 1;
    while i < scores.len()
        invariant
            1 <= i <= scores@.len(),
            best < i,
            forall|k: int| 0 <= k < scores@.len() ==> (#[trigger] scores@[k]).wf(),
            forall|j: int| 0 <= j < i ==> (#[trigger] scores@[j])@.le(scores@[best as int]@),
            forall|j: int| best < j < i ==> (#[trigger] scores@[j])@.lt(scores@[best as int]@),
        decreases scores.len() - i,
    {
        if scores[best].at_most(&scores[i]) {
            proof {
                assert forall|j: int| 0 <= j < i + 1 implies (#[trigger] scores@[j])@.le(
                    scores@[i as int]@,
                ) by {
                    if j < i {
                        scores@[j].lemma_view_wf();
                        scores@[best as int].lemma_view_wf();
                        scores@[i as int].lemma_view_wf();
                        lemma_le_transitive(scores@[j]@, scores@[best as int]@, scores@[i as int]@);
                    }
                }
            }
            best = i;
        }
        i += 1;
    }
    best
}

/// Picks from `placements` by the scores that `rate` gives: the placement
/// with the greatest score, the last of them where several share it.
pub(crate) fn choose_last<F: Fn(&Placement) -> Score>(
    placements: &[Placement],
    rate: F,
    Ghost(rating): Ghost<spec_fn(PlacementView) -> Ratio>,
) -> (choice: Option<Placement>)
    requires
        forall|i: int|
            0 <= i < placements@.len() ==> call_requires(rate, (&#[trigger] placements@[i],)),
        forall|p: &Placement, s: Score|
            #[trigger] call_ensures(rate, (p,), s) ==> s.wf() && s@ == rating(p@),
    ensures
        chosen_last(placements@, rating, choice),
{
    if placements.len() == 0 {
        return None;
    }
    let mut scores: Vec<Score> = Vec::new();
    let mut i: usize = 0;
    while i < placements.len()
        invariant
            i <= placements@.len(),
            scores@.len() == i,
            forall|k: int|
                0 <= k < placements@.len() ==> call_requires(rate, (&#[trigger] placements@[k],)),
            forall|p: &Placement, s: Score|
                #[trigger] call_ensures(rate, (p,), s) ==> s.wf() && s@ == rating(p@),
            forall|k: int|
                0 <= k < i ==> (#[trigger] scores@[k]).wf() && scores@[k]@ == rating(
                    placements@[k]@,
                ),
        decreases placements.len() - i,
    {
        let score = rate(&placements[i]);
        scores.push(score);
        i += 1;
    }
    let best = last_best_index(&scores);
    let picked = placements[best].clone();
    proof {
        assert forall|j: int| 0 <= j < placements@.len() implies rating(
            (#[trigger] placements@[j])@,
        ).le(rating(placements@[best as int]@)) by {
            assert(scores@[j]@.le(scores@[best as int]@));
        }
        assert forall|j: int| best < j < placements@.len() implies rating(
            (#[trigger] placements@[j])@,
        ).lt(rating(placements@[best as int]@)) by {
            assert(scores@[j]@.lt(scores@[best as int]@));
        }
        assert(is_last_best(placements@, rating, best as int));
    }
    Some(picked)
}

/// The rating of the greedy strategy: the cells added, a point each.
pub open spec fn greedy_rating() -> spec_fn(PlacementView) -> Ratio {
    |p: PlacementView| whole(100 * p.cells_added)
}

/// Picks the placement that adds the most cells; the last of them where
/// several add as many.
pub fn greedy_expansion(placements: &[Placement]) -> (choice: Option<Placement>)
    ensures
        chosen_last(placements@, greedy_rating(), choice),
{
    let rate = |p: &Placement| -> (s: Score)
        ensures
            s.wf(),
            s@ == whole(100 * p@.cells_added),
        {
            let cells: u128 = p.cells_added as u128;
            Score::from_hundredths(100 * cells)
        };
    choose_last(placements, rate, Ghost(greedy_rating()))
}

/// The rating of the conservative strategy: the cells of the piece on the
/// player's territory first, the cells added second. The first count is
/// weighted so that no difference in the second can outweigh it.
pub open spec fn conservative_rating() -> spec_fn(PlacementView) -> Ratio {
    |p: PlacementView| whole(p.territory_touches * 0x1_0000_0000_0000_0000 + p.cells_added)
}

/// The order of the conservative strategy: by the cells on the player's
/// territory, and by the cells added among placements that agree in those.
pub open spec fn conservative_le(a: PlacementView, b: PlacementView) -> bool {
    a.territory_touches < b.territory_touches || (a.territory_touches == b.territory_touches
        && a.cells_added <= b.cells_added)
}

/// The conservative rating orders placements as the conservative order does.
pub proof fn lemma_conservative_order(a: PlacementView, b: PlacementView)
    ensures
        conservative_rating()(a).le(conservative_rating()(b)) <==> conservative_le(a, b),
{
    let base = 0x1_0000_0000_0000_0000int;
    let left = a.territory_touches * base + a.cells_added;
    let right = b.territory_touches * base + b.cells_added;
    assert(a.cells_added < base && b.cells_added < base);
    lemma_whole_order(left, right);
    if a.territory_touches < b.territory_touches {
        assert((a.territory_touches + 1) * base <= b.territory_touches * base);
    } else if b.territory_touches < a.territory_touches {
        assert((b.territory_touches + 1) * base <= a.territory_touches * base);
    }
}

/// Picks the placement with the most cells on the player's territory, among
/// those the one that adds the most cells, and the last of them where
/// several agree in both.
pub fn conservative(placements: &[Placement]) -> (choice: Option<Placement>)
    ensures
        chosen_last(placements@, conservative_rating(), choice),
{
    let rate = |p: &Placement| -> (s: Score)
        ensures
            s.wf(),
            s@ == whole(p@.territory_touches * 0x1_0000_0000_0000_0000 + p@.cells_added),
        {
            let touches: u128 = p.territory_touches as u128;
            let cells: u128 = p.cells_added as u128;
            Score::from_hundredths(touches * 0x1_0000_0000_0000_0000 + cells)
        };
    choose_last(placements, rate, Ghost(conservative_rating()))
}

/// Whether a placement is anchored at least two cells away from every edge
/// of a board `width` wide and `height` high.
pub open spec fn away_from_edges(p: PlacementView, width: usize, height: usize) -> bool {
    &&& p.position.x >= 2
    &&& p.position.x + 2 < width
    &&& p.position.y >= 2
    &&& p.position.y + 2 < height
}

/// Whether the `i`-th placement is anchored away from the edges, adds the
/// most cells of those that are, and every later one of them adds fewer.
pub open spec fn is_last_best_away(
    placements: Seq<Placement>,
    width: usize,
    height: usize,
    i: int,
) -> bool {
    &&& 0 <= i < placements.len()
    &&& away_from_edges(placements[i]@, width, height)
    &&& forall|j: int|
        0 <= j < placements.len() && away_from_edges((#[trigger] placements[j])@, width, height)
            ==> placements[j].cells_added <= placements[i].cells_added
    &&& forall|j: int|
        i < j < placements.len() && away_from_edges((#[trigger] placements[j])@, width, height)
            ==> placements[j].cells_added < placements[i].cells_added
}

/// Picks, among the placements anchored at least two cells away from every
/// edge, the one that adds the most cells, the last of them where several add
/// as many. Where no placement is anchored so, picks as the greedy strategy
/// does.
pub fn edge_avoidance(placements: &[Placement], grid_width: usize, grid_height: usize) -> (choice:
    Option<Placement>)
    ensures
        match choice {
            None => placements@.len() == 0,
            Some(picked) => if exists|j: int|
                0 <= j < placements@.len() && away_from_edges(
                    (#[trigger] placements@[j])@,
                    grid_width,
                    grid_height,
                ) {
                exists|i: int|
                    is_last_best_away(placements@, grid_width, grid_height, i) && picked@
                        == placements@[i]@
            } else {
                chosen_last(placements@, greedy_rating(), choice)
            },
        },
{
    let mut best: Option<usize> = None;
    let mut i: usize = 0;
    while i < placements.len()
        invariant
            i <= placements@.len(),
            match best {
                None => forall|j: int|
                    0 <= j < i ==> !away_from_edges(
                        (#[trigger] placements@[j])@,
                        grid_width,
                        grid_height,
                    ),
                Some(b) => {
                    &&& b < i
                    &&& away_from_edges(placements@[b as int]@, grid_width, grid_height)
                    &&& forall|j: int|
                        0 <= j < i && away_from_edges(
                            (#[trigger] placements@[j])@,
                            grid_width,
                            grid_height,
                        ) ==> placements@[j].cells_added <= placements@[b as int].cells_added
                    &&& forall|j: int|
                        b < j < i && away_from_edges(
                            (#[trigger] placements@[j])@,
                            grid_width,
                            grid_height,
                        ) ==> placements@[j].cells_added < placements@[b as int].cells_added
                },
            },
        decreases placements.len() - i,
    {
        let p = &placements[i];
        let away = p.position.x >= 2 && grid_width >= 2 && p.position.x < grid_width - 2
            && p.position.y >= 2 && grid_height >= 2 && p.position.y < grid_height - 2;
        assert(away == away_from_edges(placements@[i as int]@, grid_width, grid_height));
        if away {
            match best {
                None => {
                    best = Some(i);
                },
                Some(b) => {
                    if placements[b].cells_added <= p.cells_added {
                        best = Some(i);
                    }
                },
            }
        }
        i += 1;
    }
    match best {
        None => greedy_expansion(placements),
        Some(b) => {
            assert(is_last_best_away(placements@, grid_width, grid_height, b as int));
            Some(placements[b].clone())
        },
    }
}

/// The rating of the balanced strategy: two points for each cell added and
/// one for each cell of the piece on the player's territory.
pub open spec fn balanced_rating() -> spec_fn(PlacementView) -> Ratio {
    |p: PlacementView| whole(200 * p.cells_added + 100 * p.territory_touches)
}

/// Picks the placement with the greatest balanced rating; the last of them
/// where several share it.
pub fn balanced(placements: &[Placement]) -> (choice: Option<Placement>)
    ensures
        chosen_last(placements@, balanced_rating(), choice),
{
    let rate = |p: &Placement| -> (s: Score)
        ensures
            s.wf(),
            s@ == whole(200 * p@.cells_added + 100 * p@.territory_touches),
        {
            let touches: u128 = p.territory_touches as u128;
            let cells: u128 = p.cells_added as u128;
            Score::from_hundredths(200 * cells + 100 * touches)
        };
    choose_last(placements, rate, Ghost(balanced_rating()))
}

} // verus!
