use filler::ai::heuristics::flood_fill_reachable;
use filler::ai::optimization::{
    flood_fill_bounded, BatchScorer, DensityCache, FloodFillCache, ScoringContext,
};
use filler::game_state::{GameState, Grid, Position, Shape};
use filler::placement::Placement;
use filler::score::Score;

fn open_grid() -> Grid {
    let raw = vec![
        vec!['.', '.', '.', '.', '.'],
        vec!['.', '@', '@', '.', '.'],
        vec!['.', '@', '.', '.', '.'],
        vec!['.', '.', '.', '.', '.'],
        vec!['.', '.', '.', '.', '.'],
    ];
    Grid::from_chars(5, 5, raw)
}

fn contested_state() -> GameState {
    let raw = vec![
        vec!['.', '.', '.', '.', '.'],
        vec!['.', '@', '@', '.', '.'],
        vec!['.', '@', '.', '.', '.'],
        vec!['.', '.', '.', '$', '$'],
        vec!['.', '.', '.', '$', '.'],
    ];
    let grid = Grid::from_chars(5, 5, raw);
    let shape = Shape::from_chars(1, 1, vec![vec!['#']]);
    GameState::new(1, grid, shape)
}

fn placement_of(x: usize, y: usize, cells: usize, piece: &[&str]) -> Placement {
    let raw: Vec<Vec<char>> = piece.iter().map(|r| r.chars().collect()).collect();
    Placement {
        position: Position::new(x, y),
        shape: Shape::from_chars(piece[0].len(), piece.len(), raw),
        cells_added: cells,
        territory_touches: 1,
    }
}

#[test]
fn test_flood_fill_cache_new() {
    let cache = FloodFillCache::new();
    assert_eq!(cache.stats().entries, 0);
}

#[test]
fn test_flood_fill_cache_compute() {
    let mut cache = FloodFillCache::new();

    let result = cache.get_or_compute((1, 2), || 42);
    assert_eq!(result, 42);
    assert_eq!(cache.stats().entries, 1);
}

#[test]
fn test_flood_fill_cache_hit() {
    let mut cache = FloodFillCache::new();

    cache.get_or_compute((1, 2), || 42);
    let result = cache.get_or_compute((1, 2), || 999);

    assert_eq!(result, 42);
}

#[test]
fn test_density_cache_new() {
    let cache = DensityCache::new();
    assert_eq!(cache.stats().entries, 0);
}

#[test]
fn test_density_cache_compute() {
    let mut cache = DensityCache::new();

    let result = cache.get_or_compute((2, 3), || 15);
    assert_eq!(result, 15);
    assert_eq!(cache.stats().entries, 1);
}

#[test]
fn test_scoring_context_new() {
    let context = ScoringContext::new();
    let (ff, den) = context.cache_stats();

    assert_eq!(ff.entries, 0);
    assert_eq!(den.entries, 0);
}

#[test]
fn test_batch_scorer_new() {
    let scorer = BatchScorer::new();
    let (_ff, _den) = scorer.cache_stats();

    assert!(true);
}

#[test]
fn test_flood_fill_bounded_respects_max_iterations() {
    let grid = open_grid();
    let start = vec![Position::new(1, 1)];

    let result = flood_fill_bounded(&grid, &start, 0);
    assert_eq!(result, 0);
}

#[test]
fn test_flood_fill_bounded_with_high_limit() {
    let grid = open_grid();
    let start = vec![Position::new(0, 0)];

    let result = flood_fill_bounded(&grid, &start, 1000);
    assert!(result > 0);
}

#[test]
fn test_cache_clear() {
    let mut cache = FloodFillCache::new();
    cache.get_or_compute((1, 2), || 42);
    assert_eq!(cache.stats().entries, 1);

    cache.clear();
    assert_eq!(cache.stats().entries, 0);
}

#[test]
fn test_context_reset() {
    let mut context = ScoringContext::new();
    context.flood_fill_cache_mut().get_or_compute((1, 2), || 42);
    context.density_cache_mut().get_or_compute((2, 3), || 15);

    let (ff1, den1) = context.cache_stats();
    assert!(ff1.entries > 0);
    assert!(den1.entries > 0);

    context.reset();

    let (ff2, den2) = context.cache_stats();
    assert_eq!(ff2.entries, 0);
    assert_eq!(den2.entries, 0);
}

#[test]
fn a_second_query_returns_what_the_first_computed() {
    let mut cache = FloodFillCache::new();
    assert_eq!(cache.get_or_compute((3, 4), || 7), 7);
    assert_eq!(cache.get_or_compute((3, 4), || 8), 7);
    assert_eq!(cache.get_or_compute((3, 4), || 9), 7);
    assert_eq!(cache.stats().entries, 1);
    cache.clear();
    assert_eq!(cache.get_or_compute((3, 4), || 8), 8);
    let mut density = DensityCache::new();
    assert_eq!(density.get_or_compute((3, 4), || 1), 1);
    assert_eq!(density.get_or_compute((3, 4), || 2), 1);
    density.clear();
    assert_eq!(density.stats().entries, 0);
    assert_eq!(density.get_or_compute((3, 4), || 2), 2);
}

#[test]
fn a_hit_does_not_run_the_computation() {
    let mut cache = FloodFillCache::new();
    let mut runs = 0;
    cache.get_or_compute((0, 0), || {
        runs += 1;
        5
    });
    cache.get_or_compute((0, 0), || {
        runs += 1;
        6
    });
    assert_eq!(runs, 1);
}

#[test]
fn keys_are_told_apart_by_both_coordinates() {
    let mut cache = FloodFillCache::new();
    assert_eq!(cache.get_or_compute((1, 2), || 12), 12);
    assert_eq!(cache.get_or_compute((2, 1), || 21), 21);
    assert_eq!(cache.get_or_compute((0, usize::MAX), || 1), 1);
    assert_eq!(cache.get_or_compute((1, 0), || 2), 2);
    assert_eq!(cache.get_or_compute((usize::MAX, usize::MAX), || 3), 3);
    assert_eq!(cache.get_or_compute((usize::MAX, 0), || 4), 4);
    assert_eq!(cache.stats().entries, 6);
    assert_eq!(cache.get_or_compute((1, 2), || 0), 12);
    assert_eq!(cache.get_or_compute((2, 1), || 0), 21);
    assert_eq!(cache.get_or_compute((0, usize::MAX), || 0), 1);
    assert_eq!(cache.get_or_compute((1, 0), || 0), 2);
    assert_eq!(cache.get_or_compute((usize::MAX, usize::MAX), || 0), 3);
    assert_eq!(cache.get_or_compute((usize::MAX, 0), || 0), 4);
    assert_eq!(cache.stats().entries, 6);
}

#[test]
fn the_two_caches_of_a_context_are_apart() {
    let mut context = ScoringContext::default();
    assert_eq!(context.flood_fill_cache_mut().get_or_compute((1, 1), || 10), 10);
    assert_eq!(context.density_cache_mut().get_or_compute((1, 1), || 20), 20);
    assert_eq!(context.flood_fill_cache_mut().get_or_compute((1, 1), || 30), 10);
    assert_eq!(context.density_cache_mut().get_or_compute((1, 1), || 40), 20);
    let (flood, density) = context.cache_stats();
    assert_eq!((flood.entries, density.entries), (1, 1));
    assert_eq!(FloodFillCache::default().stats().entries, 0);
    assert_eq!(DensityCache::default().stats().entries, 0);
}

#[test]
fn the_bounded_flood_fill_counts_expansion_by_expansion() {
    let grid = open_grid();
    let start = [Position::new(0, 0)];
    // The first expansion finds (1,0) and (0,1), the second, of (1,0),
    // finds (2,0), the third, of (0,1), finds (0,2).
    assert_eq!(flood_fill_bounded(&grid, &start, 0), 0);
    assert_eq!(flood_fill_bounded(&grid, &start, 1), 2);
    assert_eq!(flood_fill_bounded(&grid, &start, 2), 3);
    assert_eq!(flood_fill_bounded(&grid, &start, 3), 4);
    // With the limit out of the way the count is that of the plain fill.
    assert_eq!(flood_fill_bounded(&grid, &start, 22), 21);
    assert_eq!(flood_fill_bounded(&grid, &start, 25), 21);
    assert_eq!(flood_fill_bounded(&grid, &start, 1000), 21);
    assert_eq!(flood_fill_bounded(&grid, &start, usize::MAX), 21);
    assert_eq!(flood_fill_reachable(&grid, &start), 21);
}

#[test]
fn a_start_given_twice_takes_two_expansions() {
    let grid = open_grid();
    let twice = [Position::new(0, 0), Position::new(0, 0)];
    assert_eq!(flood_fill_bounded(&grid, &twice, 1), 2);
    // The second expansion is that of (0,0) again and finds nothing new.
    assert_eq!(flood_fill_bounded(&grid, &twice, 2), 2);
    assert_eq!(flood_fill_bounded(&grid, &twice, 3), 3);
    assert_eq!(flood_fill_bounded(&grid, &twice, 1000), 21);
    assert_eq!(flood_fill_bounded(&grid, &[Position::new(7, 7)], 1000), 0);
}

#[test]
fn more_expansions_never_count_less() {
    let grid = open_grid();
    let start = [Position::new(2, 2)];
    let mut previous = 0;
    for limit in 0..30 {
        let count = flood_fill_bounded(&grid, &start, limit);
        assert!(previous <= count);
        assert!(count <= 21);
        previous = count;
    }
    assert_eq!(previous, 21);
}

#[test]
fn a_pass_scores_each_placement_with_the_caches() {
    let state = contested_state();
    let placements = vec![
        placement_of(1, 0, 2, &["#"]),
        placement_of(2, 0, 3, &["#"]),
        placement_of(0, 1, 1, &["#"]),
    ];
    let mut scorer = BatchScorer::new();
    let scored = scorer.score_all(&placements, &state);
    assert_eq!(scored.len(), 3);
    for (i, (placement, _)) in scored.iter().enumerate() {
        assert_eq!(placement, &placements[i]);
    }
    // 10 * 2 + 1.5 * 42 + 2 * 3 + 1.2 * 2 + 0.5 * 1, the flood-fill score
    // 42.5 and the density score 2.4 cut to whole points.
    assert_eq!(scored[0].1, Score::from_hundredths(2000 + 6300 + 600 + 240 + 50));
    assert_eq!(scored[1].1, Score::from_hundredths(3000 + 6300 + 600 + 120 + 50));
    assert_eq!(scored[2].1, Score::from_hundredths(1000 + 6300 + 600 + 240 + 50));
    let (flood, density) = scorer.cache_stats();
    assert_eq!((flood.entries, density.entries), (3, 3));
}

#[test]
fn placements_of_one_key_share_the_cached_parts() {
    let state = contested_state();
    // Both pieces have their first solid cell on (0,0); the second reaches
    // fewer cells and sees more of the player's territory.
    let single = placement_of(0, 0, 0, &["#"]);
    let bar = placement_of(0, 0, 0, &["###"]);
    let mut scorer = BatchScorer::new();
    let scored = scorer.score_all(&[single.clone(), bar.clone()], &state);
    // Alone: 1.5 * 42 + 2 * 3 + 1.2 * 0 + 0.5 * 2.
    assert_eq!(scored[0].1, Score::from_hundredths(6300 + 600 + 0 + 100));
    // After it, with its cached 42 and 0: 2 * 9 + 0.5 * 4 of its own.
    assert_eq!(scored[1].1, Score::from_hundredths(6300 + 1800 + 0 + 200));
    let (flood, density) = scorer.cache_stats();
    assert_eq!((flood.entries, density.entries), (1, 1));
    // The other way round the bar's own 37 and 1 are cached.
    let scored = scorer.score_all(&[bar, single], &state);
    assert_eq!(scored[0].1, Score::from_hundredths(5550 + 1800 + 120 + 200));
    assert_eq!(scored[1].1, Score::from_hundredths(5550 + 600 + 120 + 100));
    let (flood, density) = scorer.cache_stats();
    assert_eq!((flood.entries, density.entries), (1, 1));
}

#[test]
fn a_piece_without_cells_leaves_the_caches_alone() {
    let state = contested_state();
    let nothing = placement_of(2, 2, 4, &["."]);
    let mut scorer = BatchScorer::default();
    let scored = scorer.score_all(&[nothing], &state);
    assert_eq!(scored[0].1, Score::from_hundredths(4000));
    let (flood, density) = scorer.cache_stats();
    assert_eq!((flood.entries, density.entries), (0, 0));
    assert_eq!(scorer.score_all(&[], &state).len(), 0);
}
