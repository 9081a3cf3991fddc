//! Memoization for one scoring pass: caches keyed by a cell, the scorer that
//! shares them over a list of placements, and the flood fill with a limit.

use std::collections::HashMap;
use vstd::prelude::*;
use crate::ai::advanced_strategies::all_wf;
use crate::ai::flood::{fill, run, seeded};
use crate::ai::heuristics::{
    covered, edge_control_points, edge_of, nearby_of, nearby_territory, reach_of,
    reachable_cells, weak_of, weak_position_units,
};
use crate::game_state::{GameState, GameStateView, Grid, Position};
use crate::placement::{fits, Placement, PlacementView};
use crate::score::{whole, Ratio, Score};

verus! {

broadcast use vstd::std_specs::hash::group_hash_axioms;

/// The number under which a cell is filed: the column in the upper 64 bits,
/// the row in the lower.
pub open spec fn key_code(pos: (usize, usize)) -> u128 {
    (pos.0 * 0x1_0000_0000_0000_0000 + pos.1) as u128
}

/// What a map filed by number holds, by cell.
pub open spec fn entries_of(filed: Map<u128, usize>) -> Map<(usize, usize), usize> {
    Map::new(
        |pos: (usize, usize)| filed.contains_key(key_code(pos)),
        |pos: (usize, usize)| filed[key_code(pos)],
    )
}

/// What a query for `pos` returns and leaves behind, where `computed` is
/// what the computation gives if it is run: an entry that is there is
/// returned and nothing changes; else `computed` is returned and entered.
pub open spec fn after_query(
    entries: Map<(usize, usize), usize>,
    pos: (usize, usize),
    computed: usize,
) -> (usize, Map<(usize, usize), usize>) {
    if entries.contains_key(pos) {
        (entries[pos], entries)
    } else {
        (computed, entries.insert(pos, computed))
    }
}

/// Within one pass a second query for a cell returns what the first one
/// computed, whatever the second computation would give, and changes
/// nothing; on an emptied cache the next query computes anew.
pub proof fn lemma_cache_round_trip(
    entries: Map<(usize, usize), usize>,
    pos: (usize, usize),
    first: usize,
    second: usize,
    third: usize,
)
    requires
        !entries.contains_key(pos),
    ensures
        ({
            let (value1, entries1) = after_query(entries, pos, first);
            let (value2, entries2) = after_query(entries1, pos, second);
            &&& value1 == first
            &&& value2 == first
            &&& entries2 == entries1
        }),
        after_query(Map::empty(), pos, third).0 == third,
{
}

fn key_of(pos: (usize, usize)) -> (key: u128)
    ensures
        key == key_code(pos),
{
    (pos.0 as u128) * 0x1_0000_0000_0000_0000 + (pos.1 as u128)
}

proof fn lemma_key_code_injective(a: (usize, usize), b: (usize, usize))
    requires
        key_code(a) == key_code(b),
    ensures
        a == b,
{
    assert(a.1 < 0x1_0000_0000_0000_0000 && b.1 < 0x1_0000_0000_0000_0000);
    assert(a.0 < 0x1_0000_0000_0000_0000 && b.0 < 0x1_0000_0000_0000_0000);
}

/// Whether the entries by cell are as many as the entries by number.
spec fn counted(filed: Map<u128, usize>) -> bool {
    entries_of(filed).dom().finite() && entries_of(filed).dom().len() == filed.len()
}

fn query<F: FnOnce() -> usize>(
    filed: &mut HashMap<u128, usize>,
    pos: (usize, usize),
    compute: F,
) -> (value: usize)
    requires
        call_requires(compute, ()),
        counted(old(filed)@),
    ensures
        counted(final(filed)@),
        !entries_of(old(filed)@).contains_key(pos) ==> call_ensures(compute, (), value),
        (value, entries_of(final(filed)@)) == after_query(entries_of(old(filed)@), pos, value),
{
    let key = key_of(pos);
    let ghost before = entries_of(filed@);
    if let Some(found) = filed.get(&key) {
        return *found;
    }
    let value = compute();
    filed.insert(key, value);
    proof {
        assert forall|other: (usize, usize)| #[trigger]
            entries_of(filed@).contains_key(other) <==> before.insert(pos, value).contains_key(
                other,
            ) by {
            if key_code(other) == key_code(pos) {
                lemma_key_code_injective(other, pos);
            }
        }
        assert forall|other: (usize, usize)| #[trigger]
            entries_of(filed@).contains_key(other) implies entries_of(filed@)[other] == before.insert(
            pos,
            value,
        )[other] by {
            if key_code(other) == key_code(pos) {
                lemma_key_code_injective(other, pos);
            }
        }
        assert(entries_of(filed@) =~= before.insert(pos, value));
    }
    value
}

fn fresh_map() -> (filed: HashMap<u128, usize>)
    ensures
        counted(filed@),
        entries_of(filed@) == Map::<(usize, usize), usize>::empty(),
{
    let filed: HashMap<u128, usize> = HashMap::new();
    assert(entries_of(filed@) =~= Map::<(usize, usize), usize>::empty());
    filed
}

fn empty_map(filed: &mut HashMap<u128, usize>)
    ensures
        counted(final(filed)@),
        entries_of(final(filed)@) == Map::<(usize, usize), usize>::empty(),
{
    filed.clear();
    assert(entries_of(filed@) =~= Map::<(usize, usize), usize>::empty());
}

/// `HashMap::capacity`: how many entries the map can hold before it takes
/// more memory. Nothing is claimed of the number.
#[verifier::external_body]
fn map_capacity(filed: &HashMap<u128, usize>) -> (capacity: usize) {
    filed.capacity()
}

/// The size of a cache: its entries, and the room it has taken.
#[derive(Debug, Clone, Copy, PartialEq, Eq)]
pub struct CacheStats {
    pub entries: usize,
    pub capacity: usize,
}

/// Flood-fill results of one scoring pass, by cell.
#[derive(Debug)]
pub struct FloodFillCache {
    cache: HashMap<u128, usize>,
}

impl View for FloodFillCache {
    type V = Map<(usize, usize), usize>;

    /// The entries, by cell.
    closed spec fn view(&self) -> Map<(usize, usize), usize> {
        entries_of(self.cache@)
    }
}

impl FloodFillCache {
    /// Whether the cache is in order. Every cache that this module hands
    /// out is, and its operations keep it so.
    pub closed spec fn wf(&self) -> bool {
        counted(self.cache@)
    }

    /// An empty cache.
    pub fn new() -> (cache: Self)
        ensures
            cache.wf(),
            cache@ == Map::<(usize, usize), usize>::empty(),
    {
        FloodFillCache { cache: fresh_map() }
    }

    /// The entry for `pos`; where there is none, what `compute` gives, which
    /// is entered first.
    pub fn get_or_compute<F: FnOnce() -> usize>(
        &mut self,
        pos: (usize, usize),
        compute: F,
    ) -> (value: usize)
        requires
            old(self).wf(),
            call_requires(compute, ()),
        ensures
            final(self).wf(),
            !old(self)@.contains_key(pos) ==> call_ensures(compute, (), value),
            (value, final(self)@) == after_query(old(self)@, pos, value),
    {
        query(&mut self.cache, pos, compute)
    }

    /// Removes every entry.
    pub fn clear(&mut self)
        ensures
            final(self).wf(),
            final(self)@ == Map::<(usize, usize), usize>::empty(),
    {
        empty_map(&mut self.cache);
    }

    /// The number of entries, and the room that the cache has taken.
    pub fn stats(&self) -> (stats: CacheStats)
        requires
            self.wf(),
        ensures
            self@.dom().finite(),
            stats.entries == self@.dom().len(),
    {
        CacheStats { entries: self.cache.len(), capacity: map_capacity(&self.cache) }
    }
}

impl Default for FloodFillCache {
    fn default() -> (cache: Self)
        ensures
            cache.wf(),
            cache@ == Map::<(usize, usize), usize>::empty(),
    {
        FloodFillCache::new()
    }
}

/// Density results of one scoring pass, by cell.
#[derive(Debug)]
pub struct DensityCache {
    cache: HashMap<u128, usize>,
}

impl View for DensityCache {
    type V = Map<(usize, usize), usize>;

    /// The entries, by cell.
    closed spec fn view(&self) -> Map<(usize, usize), usize> {
        entries_of(self.cache@)
    }
}

impl DensityCache {
    /// Whether the cache is in order. Every cache that this module hands
    /// out is, and its operations keep it so.
    pub closed spec fn wf(&self) -> bool {
        counted(self.cache@)
    }

    /// An empty cache.
    pub fn new() -> (cache: Self)
        ensures
            cache.wf(),
            cache@ == Map::<(usize, usize), usize>::empty(),
    {
        DensityCache { cache: fresh_map() }
    }

    /// The entry for `pos`; where there is none, what `compute` gives, which
    /// is entered first.
    pub fn get_or_compute<F: FnOnce() -> usize>(
        &mut self,
        pos: (usize, usize),
        compute: F,
    ) -> (value: usize)
        requires
            old(self).wf(),
            call_requires(compute, ()),
        ensures
            final(self).wf(),
            !old(self)@.contains_key(pos) ==> call_ensures(compute, (), value),
            (value, final(self)@) == after_query(old(self)@, pos, value),
    {
        query(&mut self.cache, pos, compute)
    }

    /// Removes every entry.
    pub fn clear(&mut self)
        ensures
            final(self).wf(),
            final(self)@ == Map::<(usize, usize), usize>::empty(),
    {
        empty_map(&mut self.cache);
    }

    /// The number of entries, and the room that the cache has taken.
    pub fn stats(&self) -> (stats: CacheStats)
        requires
            self.wf(),
        ensures
            self@.dom().finite(),
            stats.entries == self@.dom().len(),
    {
        CacheStats { entries: self.cache.len(), capacity: map_capacity(&self.cache) }
    }
}

impl Default for DensityCache {
    fn default() -> (cache: Self)
        ensures
            cache.wf(),
            cache@ == Map::<(usize, usize), usize>::empty(),
    {
        DensityCache::new()
    }
}

/// The count of a flood fill from `start_positions` that stops after
/// `max_iterations` expansions: the traversal takes the starts in, then
/// expands the oldest waiting cell at a time, visiting its neighbours to the
/// right, to the left, below and above.
pub fn flood_fill_bounded(
    grid: &Grid,
    start_positions: &[Position],
    max_iterations: usize,
) -> (count: usize)
    requires
        grid@.wf(),
    ensures
        count == run(grid@, seeded(grid@, start_positions@), max_iterations as nat).count,
{
    fill(grid, start_positions, Some(max_iterations))
}

/// The two caches of one scoring pass.
#[derive(Debug)]
pub struct ScoringContext {
    flood_fill_cache: FloodFillCache,
    density_cache: DensityCache,
}

impl ScoringContext {
    /// The flood-fill cache.
    pub closed spec fn flood_cache(&self) -> FloodFillCache {
        self.flood_fill_cache
    }

    /// The density cache.
    pub closed spec fn dense_cache(&self) -> DensityCache {
        self.density_cache
    }

    /// Whether both caches are in order.
    pub open spec fn wf(&self) -> bool {
        self.flood_cache().wf() && self.dense_cache().wf()
    }

    /// A context with both caches empty.
    pub fn new() -> (context: Self)
        ensures
            context.wf(),
            context.flood_cache()@ == Map::<(usize, usize), usize>::empty(),
            context.dense_cache()@ == Map::<(usize, usize), usize>::empty(),
    {
        ScoringContext { flood_fill_cache: FloodFillCache::new(), density_cache: DensityCache::new() }
    }

    /// The flood-fill cache, to query or change.
    pub fn flood_fill_cache_mut(&mut self) -> (cache: &mut FloodFillCache)
        ensures
            *cache == old(self).flood_cache(),
            final(self).flood_cache() == *final(cache),
            final(self).dense_cache() == old(self).dense_cache(),
    {
        &mut self.flood_fill_cache
    }

    /// The density cache, to query or change.
    pub fn density_cache_mut(&mut self) -> (cache: &mut DensityCache)
        ensures
            *cache == old(self).dense_cache(),
            final(self).dense_cache() == *final(cache),
            final(self).flood_cache() == old(self).flood_cache(),
    {
        &mut self.density_cache
    }

    /// Empties both caches.
    pub fn reset(&mut self)
        ensures
            final(self).wf(),
            final(self).flood_cache()@ == Map::<(usize, usize), usize>::empty(),
            final(self).dense_cache()@ == Map::<(usize, usize), usize>::empty(),
    {
        self.flood_fill_cache.clear();
        self.density_cache.clear();
    }

    /// The sizes of the flood-fill cache and of the density cache.
    pub fn cache_stats(&self) -> (stats: (CacheStats, CacheStats))
        requires
            self.wf(),
        ensures
            self.flood_cache()@.dom().finite(),
            self.dense_cache()@.dom().finite(),
            stats.0.entries == self.flood_cache()@.dom().len(),
            stats.1.entries == self.dense_cache()@.dom().len(),
    {
        (self.flood_fill_cache.stats(), self.density_cache.stats())
    }
}

impl Default for ScoringContext {
    fn default() -> (context: Self)
        ensures
            context.wf(),
            context.flood_cache()@ == Map::<(usize, usize), usize>::empty(),
            context.dense_cache()@ == Map::<(usize, usize), usize>::empty(),
    {
        ScoringContext::new()
    }
}

/// The cell under which a placement is filed: where the first solid cell of
/// its piece lands; nothing for a piece without solid cells.
pub open spec fn cache_key(placement: PlacementView) -> Option<(usize, usize)> {
    let cells = placement.shape.filled_positions();
    if cells.len() == 0 {
        None
    } else {
        Some(
            (
                (placement.position.x + cells[0].x) as usize,
                (placement.position.y + cells[0].y) as usize,
            ),
        )
    }
}

/// What is filed for a placement in the flood-fill cache: its flood-fill
/// score in whole points, the fraction dropped, and no more than a `usize`
/// holds.
pub open spec fn flood_entry(placement: PlacementView, state: GameStateView) -> usize {
    let points = (5 * reach_of(placement, state.grid)) / 2;
    if points <= usize::MAX {
        points as usize
    } else {
        usize::MAX
    }
}

/// What is filed for a placement in the density cache: its density score in
/// whole points, the fraction dropped.
pub open spec fn density_entry(placement: PlacementView, state: GameStateView) -> usize {
    let cells = covered(placement, state.grid).len();
    if cells == 0 {
        0
    } else {
        ((4 * nearby_of(placement, state)) / (5 * cells as int)) as usize
    }
}

/// The part of a batch score that is computed for each placement anew: ten
/// points for each cell added, the weak-position score weighted 2, and the
/// edge score weighted 0.5.
pub open spec fn own_part(placement: PlacementView, state: GameStateView) -> int {
    1000 * placement.cells_added + 300 * weak_of(placement, state) + 50 * edge_of(
        placement,
        state.grid,
    )
}

/// The batch score of a placement that found `flood` and `density` under its
/// key: the cached flood-fill points weighted 1.5 and the cached density
/// points weighted 1.2, added to its own part.
pub open spec fn single_value(
    placement: PlacementView,
    state: GameStateView,
    flood: usize,
    density: usize,
) -> Ratio {
    whole(own_part(placement, state) + 150 * flood + 120 * density)
}

/// Whether the `j`-th placement is the first of the list that is filed under
/// the key of the `i`-th.
pub open spec fn is_earliest(placements: Seq<Placement>, i: int, j: int) -> bool {
    &&& 0 <= j <= i < placements.len()
    &&& cache_key(placements[i]@) is Some
    &&& cache_key(placements[j]@) == cache_key(placements[i]@)
    &&& forall|k: int|
        0 <= k < j ==> cache_key((#[trigger] placements[k])@) != cache_key(placements[i]@)
}

/// The score of the `i`-th placement in a pass over the list. The cached
/// parts are those of the first placement of the list with the same key: two
/// placements that share a key share them, whatever their pieces.
pub open spec fn batch_value(placements: Seq<Placement>, state: GameStateView, i: int) -> Ratio {
    let placement = placements[i]@;
    if cache_key(placement) is None {
        whole(own_part(placement, state))
    } else {
        let j = choose|j: int| is_earliest(placements, i, j);
        single_value(
            placement,
            state,
            flood_entry(placements[j]@, state),
            density_entry(placements[j]@, state),
        )
    }
}

/// The scores of a pass over the list.
pub open spec fn batch_values(placements: Seq<Placement>, state: GameStateView) -> Seq<Ratio> {
    Seq::new(placements.len(), |i: int| batch_value(placements, state, i))
}

/// Whether the piece of every placement of the list, anchored where the
/// placement says, has coordinates that fit a `usize`.
pub open spec fn all_fit(placements: Seq<Placement>) -> bool {
    forall|i: int|
        0 <= i < placements.len() ==> fits(
            (#[trigger] placements[i]).position,
            placements[i].shape@,
        )
}

proof fn lemma_earliest_exists(placements: Seq<Placement>, i: int, j: int)
    requires
        0 <= j <= i < placements.len(),
        cache_key(placements[i]@) is Some,
        cache_key(placements[j]@) == cache_key(placements[i]@),
    ensures
        exists|e: int| is_earliest(placements, i, e),
    decreases j,
{
    if exists|k: int|
        0 <= k < j && cache_key((#[trigger] placements[k])@) == cache_key(placements[i]@) {
        let k = choose|k: int|
            0 <= k < j && cache_key((#[trigger] placements[k])@) == cache_key(placements[i]@);
        lemma_earliest_exists(placements, i, k);
    } else {
        assert(is_earliest(placements, i, j));
    }
}

proof fn lemma_earliest_unique(placements: Seq<Placement>, i: int, a: int, b: int)
    requires
        is_earliest(placements, i, a),
        is_earliest(placements, i, b),
    ensures
        a == b,
{
}

/// What the caches hold once the first `done` placements of the list have
/// been scored: an entry for each key met, which is what the first placement
/// with that key gave.
spec fn pass_inv(
    placements: Seq<Placement>,
    state: GameStateView,
    done: int,
    flood: Map<(usize, usize), usize>,
    density: Map<(usize, usize), usize>,
) -> bool {
    &&& forall|j: int|
        0 <= j < done && cache_key((#[trigger] placements[j])@) is Some ==> flood.contains_key(
            cache_key(placements[j]@)->0,
        ) && density.contains_key(cache_key(placements[j]@)->0)
    &&& forall|pos: (usize, usize)| #[trigger]
        flood.contains_key(pos) ==> exists|j: int|
            0 <= j < done && cache_key((#[trigger] placements[j])@) == Some(pos)
    &&& forall|pos: (usize, usize)| #[trigger]
        density.contains_key(pos) ==> exists|j: int|
            0 <= j < done && cache_key((#[trigger] placements[j])@) == Some(pos)
    &&& forall|j: int, e: int|
        0 <= j < done && #[trigger] is_earliest(placements, j, e) ==> flood[cache_key(
            placements[j]@,
        )->0] == flood_entry(placements[e]@, state) && density[cache_key(placements[j]@)->0]
            == density_entry(placements[e]@, state)
}

fn flood_points(placement: &Placement, game_state: &GameState) -> (points: usize)
    requires
        placement.wf(),
        game_state@.grid.wf(),
    ensures
        points == flood_entry(placement@, game_state@),
{
    let reach: u128 = reachable_cells(placement, game_state) as u128;
    let points: u128 = (5 * reach) / 2;
    if points <= usize::MAX as u128 {
        points as usize
    } else {
        usize::MAX
    }
}

fn density_points(placement: &Placement, game_state: &GameState) -> (points: usize)
    requires
        placement.wf(),
        game_state@.grid.wf(),
    ensures
        points == density_entry(placement@, game_state@),
{
    let (sum, count) = nearby_territory(placement, game_state);
    if count == 0 {
        0
    } else {
        let parts: u128 = 5 * (count as u128);
        let points: u128 = (4 * sum) / parts;
        assert(points <= 10) by (nonlinear_arith)
            requires
                points == (4 * sum as int) / (parts as int),
                parts == 5 * count,
                count > 0,
                0 <= sum <= 12 * count,
        ;
        points as usize
    }
}

fn first_landing(placement: &Placement) -> (key: Option<(usize, usize)>)
    requires
        placement.wf(),
        fits(placement.position, placement.shape@),
    ensures
        key == cache_key(placement@),
{
    let cells = placement.shape.get_filled_positions();
    if cells.len() == 0 {
        None
    } else {
        let first = cells[0];
        Some((placement.position.x + first.x, placement.position.y + first.y))
    }
}

/// Scores the placements of a list in one pass that shares the two caches.
#[derive(Debug)]
pub struct BatchScorer {
    context: ScoringContext,
}

impl BatchScorer {
    /// The context of the scorer.
    pub closed spec fn scoring_context(&self) -> ScoringContext {
        self.context
    }

    /// Whether the caches of the scorer are in order.
    pub open spec fn wf(&self) -> bool {
        self.scoring_context().wf()
    }

    /// A scorer with empty caches.
    pub fn new() -> (scorer: Self)
        ensures
            scorer.wf(),
            scorer.scoring_context().flood_cache()@ == Map::<(usize, usize), usize>::empty(),
            scorer.scoring_context().dense_cache()@ == Map::<(usize, usize), usize>::empty(),
    {
        BatchScorer { context: ScoringContext::new() }
    }

    /// Scores the placements in order, from empty caches: each placement
    /// comes back with its score of the pass.
    pub fn score_all(&mut self, placements: &[Placement], game_state: &GameState) -> (scored: Vec<
        (Placement, Score),
    >)
        requires
            all_wf(placements@),
            all_fit(placements@),
            game_state@.grid.wf(),
        ensures
            final(self).wf(),
            scored@.len() == placements@.len(),
            forall|i: int|
                0 <= i < scored@.len() ==> {
                    &&& (#[trigger] scored@[i]).0@ == placements@[i]@
                    &&& scored@[i].1.wf()
                    &&& scored@[i].1@ == batch_value(placements@, game_state@, i)
                },
    {
        self.context.reset();
        let mut scored: Vec<(Placement, Score)> = Vec::new();
        let mut i: usize = 0;
        while i < placements.len()
            invariant
                i <= placements@.len(),
                all_wf(placements@),
                all_fit(placements@),
                game_state@.grid.wf(),
                self.wf(),
                pass_inv(
                    placements@,
                    game_state@,
                    i as int,
                    self.scoring_context().flood_cache()@,
                    self.scoring_context().dense_cache()@,
                ),
                scored@.len() == i,
                forall|k: int|
                    0 <= k < i ==> {
                        &&& (#[trigger] scored@[k]).0@ == placements@[k]@
                        &&& scored@[k].1.wf()
                        &&& scored@[k].1@ == batch_value(placements@, game_state@, k)
                    },
            decreases placements.len() - i,
        {
            let placement = &placements[i];
            let ghost flood = self.scoring_context().flood_cache()@;
            let ghost density = self.scoring_context().dense_cache()@;
            let score = self.score_single(placement, game_state);
            proof {
                let now_flood = self.scoring_context().flood_cache()@;
                let now_density = self.scoring_context().dense_cache()@;
                let list = placements@;
                let state = game_state@;
                if cache_key(list[i as int]@) is Some {
                    let pos = cache_key(list[i as int]@)->0;
                    if flood.contains_key(pos) {
                        let j = choose|j: int|
                            0 <= j < i && cache_key((#[trigger] list[j])@) == Some(pos);
                        lemma_earliest_exists(list, j, j);
                        let e = choose|e: int| is_earliest(list, j, e);
                        assert(is_earliest(list, i as int, e));
                        let chosen = choose|c: int| is_earliest(list, i as int, c);
                        lemma_earliest_unique(list, i as int, chosen, e);
                    } else {
                        assert(is_earliest(list, i as int, i as int));
                        let chosen = choose|c: int| is_earliest(list, i as int, c);
                        lemma_earliest_unique(list, i as int, chosen, i as int);
                    }
                    assert forall|j: int, e: int|
                        0 <= j < i + 1 && #[trigger] is_earliest(list, j, e) implies now_flood[cache_key(
                            list[j]@,
                        )->0] == flood_entry(list[e]@, state) && now_density[cache_key(
                            list[j]@,
                        )->0] == density_entry(list[e]@, state) by {
                        if j == i {
                            let chosen = choose|c: int| is_earliest(list, i as int, c);
                            lemma_earliest_unique(list, i as int, chosen, e);
                        }
                    }
                    assert forall|p: (usize, usize)| #[trigger]
                        now_flood.contains_key(p) implies exists|j: int|
                        0 <= j < i + 1 && cache_key((#[trigger] list[j])@) == Some(p) by {
                        if p == pos {
                            assert(cache_key(list[i as int]@) == Some(p));
                        } else {
                            assert(flood.contains_key(p));
                            let j = choose|j: int|
                                0 <= j < i && cache_key((#[trigger] list[j])@) == Some(p);
                            assert(cache_key(list[j]@) == Some(p));
                        }
                    }
                    assert forall|p: (usize, usize)| #[trigger]
                        now_density.contains_key(p) implies exists|j: int|
                        0 <= j < i + 1 && cache_key((#[trigger] list[j])@) == Some(p) by {
                        if p == pos {
                            assert(cache_key(list[i as int]@) == Some(p));
                        } else {
                            assert(density.contains_key(p));
                            let j = choose|j: int|
                                0 <= j < i && cache_key((#[trigger] list[j])@) == Some(p);
                            assert(cache_key(list[j]@) == Some(p));
                        }
                    }
                }
            }
            scored.push((placement.clone(), score));
            i += 1;
        }
        scored
    }

    /// Scores one placement with the caches as they stand.
    fn score_single(&mut self, placement: &Placement, game_state: &GameState) -> (score: Score)
        requires
            old(self).wf(),
            placement.wf(),
            fits(placement.position, placement.shape@),
            game_state@.grid.wf(),
        ensures
            final(self).wf(),
            score.wf(),
            match cache_key(placement@) {
                None => {
                    &&& final(self).scoring_context().flood_cache()@ == old(
                        self,
                    ).scoring_context().flood_cache()@
                    &&& final(self).scoring_context().dense_cache()@ == old(
                        self,
                    ).scoring_context().dense_cache()@
                    &&& score@ == whole(own_part(placement@, game_state@))
                },
                Some(pos) => {
                    let flood = after_query(
                        old(self).scoring_context().flood_cache()@,
                        pos,
                        flood_entry(placement@, game_state@),
                    );
                    let density = after_query(
                        old(self).scoring_context().dense_cache()@,
                        pos,
                        density_entry(placement@, game_state@),
                    );
                    &&& final(self).scoring_context().flood_cache()@ == flood.1
                    &&& final(self).scoring_context().dense_cache()@ == density.1
                    &&& score@ == single_value(placement@, game_state@, flood.0, density.0)
                },
            },
    {
        let cells: u128 = placement.cells_added as u128;
        let weak: u128 = weak_position_units(placement, game_state);
        let edge: u128 = edge_control_points(placement, &game_state.grid);
        let own: u128 = 1000 * cells + 300 * weak + 50 * edge;
        match first_landing(placement) {
            None => Score::from_hundredths(own),
            Some(key) => {
                let flood_of = || -> (points: usize)
                    ensures
                        points == flood_entry(placement@, game_state@),
                    { flood_points(placement, game_state) };
                let flood: u128 = self.context.flood_fill_cache_mut().get_or_compute(
                    key,
                    flood_of,
                ) as u128;
                let density_of = || -> (points: usize)
                    ensures
                        points == density_entry(placement@, game_state@),
                    { density_points(placement, game_state) };
                let density: u128 = self.context.density_cache_mut().get_or_compute(
                    key,
                    density_of,
                ) as u128;
                Score::from_hundredths(own + 150 * flood + 120 * density)
            },
        }
    }

    /// The sizes of the flood-fill cache and of the density cache.
    pub fn cache_stats(&self) -> (stats: (CacheStats, CacheStats))
        requires
            self.wf(),
        ensures
            self.scoring_context().flood_cache()@.dom().finite(),
            self.scoring_context().dense_cache()@.dom().finite(),
            stats.0.entries == self.scoring_context().flood_cache()@.dom().len(),
            stats.1.entries == self.scoring_context().dense_cache()@.dom().len(),
    {
        self.context.cache_stats()
    }
}

impl Default for BatchScorer {
    fn default() -> (scorer: Self)
        ensures
            scorer.wf(),
            scorer.scoring_context().flood_cache()@ == Map::<(usize, usize), usize>::empty(),
            scorer.scoring_context().dense_cache()@ == Map::<(usize, usize), usize>::empty(),
    {
        BatchScorer::new()
    }
}

} // verus!
