use filler::ai::heuristics::advanced_score;
use filler::ai::optimized_evaluator::{
    rank_placements_optimized, score_single_fast, select_best_placement_optimized,
};
use filler::game_state::{GameState, Grid, Position, Shape};
use filler::placement::Placement;
use filler::score::Score;

fn create_test_game_state() -> GameState {
    let raw = vec![
        vec!['.', '.', '.', '.', '.'],
        vec!['.', '@', '@', '.', '.'],
        vec!['.', '@', '.', '.', '.'],
        vec!['.', '.', '.', '$', '$'],
        vec!['.', '.', '.', '$', '.'],
    ];
    let grid = Grid::from_chars(5, 5, raw);
    let shape = Shape::from_chars(1, 1, vec![vec!['#']]);
    GameState::new(1, grid, shape)
}

fn create_test_placements() -> Vec<Placement> {
    let shape = Shape::from_chars(1, 1, vec![vec!['#']]);
    vec![
        Placement {
            position: Position::new(1, 0),
            shape: shape.clone(),
            cells_added: 2,
            territory_touches: 1,
        },
        Placement {
            position: Position::new(2, 0),
            shape: shape.clone(),
            cells_added: 3,
            territory_touches: 1,
        },
        Placement {
            position: Position::new(0, 1),
            shape: shape,
            cells_added: 1,
            territory_touches: 2,
        },
    ]
}

#[test]
fn test_select_best_placement_optimized() {
    let placements = create_test_placements();
    let game_state = create_test_game_state();

    let best = select_best_placement_optimized(&placements, &game_state);

    assert!(best.is_some());
    let selected = best.unwrap();
    assert!(selected.cells_added >= 1);
}

#[test]
fn test_select_best_placement_optimized_empty() {
    let placements = vec![];
    let game_state = create_test_game_state();

    let best = select_best_placement_optimized(&placements, &game_state);

    assert!(best.is_none());
}

#[test]
fn test_score_single_fast() {
    let shape = Shape::from_chars(1, 1, vec![vec!['#']]);
    let placement = Placement {
        position: Position::new(1, 0),
        shape,
        cells_added: 2,
        territory_touches: 1,
    };
    let game_state = create_test_game_state();

    let score = score_single_fast(&placement, &game_state);

    assert!(score.is_positive());
}

#[test]
fn test_rank_placements_optimized() {
    let placements = create_test_placements();
    let game_state = create_test_game_state();

    let ranked = rank_placements_optimized(&placements, &game_state);

    assert_eq!(ranked.len(), placements.len());

    for i in 0..ranked.len() - 1 {
        assert!(ranked[i + 1].1.at_most(&ranked[i].1));
    }
}

#[test]
fn test_rank_placements_optimized_single() {
    let shape = Shape::from_chars(1, 1, vec![vec!['#']]);
    let placements = vec![Placement {
        position: Position::new(1, 0),
        shape,
        cells_added: 2,
        territory_touches: 1,
    }];
    let game_state = create_test_game_state();

    let ranked = rank_placements_optimized(&placements, &game_state);

    assert_eq!(ranked.len(), 1);
}

#[test]
fn test_rank_placements_optimized_empty() {
    let placements = vec![];
    let game_state = create_test_game_state();

    let ranked = rank_placements_optimized(&placements, &game_state);

    assert_eq!(ranked.len(), 0);
}

#[test]
fn the_cached_pass_picks_by_its_own_scores() {
    let placements = create_test_placements();
    let game_state = create_test_game_state();
    let best = select_best_placement_optimized(&placements, &game_state).unwrap();
    assert_eq!(best, placements[1]);
    let ranked = rank_placements_optimized(&placements, &game_state);
    assert_eq!(ranked[0].0, placements[1]);
    assert_eq!(ranked[1].0, placements[0]);
    assert_eq!(ranked[2].0, placements[2]);
    assert_eq!(ranked[0].1, Score::from_hundredths(10070));
    assert_eq!(ranked[1].1, Score::from_hundredths(9190));
    assert_eq!(ranked[2].1, Score::from_hundredths(8190));
}

#[test]
fn the_cached_pass_gives_ties_to_the_later_placement() {
    let game_state = create_test_game_state();
    let shape = Shape::from_chars(1, 1, vec![vec!['#']]);
    let twin = |cells: usize| Placement {
        position: Position::new(1, 0),
        shape: shape.clone(),
        cells_added: cells,
        territory_touches: 1,
    };
    let placements = vec![twin(2), twin(1), twin(2)];
    let best = select_best_placement_optimized(&placements, &game_state).unwrap();
    assert_eq!(best.cells_added, 2);
    let ranked = rank_placements_optimized(&placements, &game_state);
    assert_eq!(ranked[0].0.cells_added, 2);
    assert_eq!(ranked[1].0.cells_added, 2);
    assert_eq!(ranked[2].0.cells_added, 1);
    // Two placements that differ in nothing the pass looks at but the
    // anchor: the later one is picked.
    let mirrored = vec![
        Placement {
            position: Position::new(0, 0),
            shape: shape.clone(),
            cells_added: 1,
            territory_touches: 1,
        },
        Placement {
            position: Position::new(4, 0),
            shape: shape.clone(),
            cells_added: 1,
            territory_touches: 1,
        },
    ];
    let best = select_best_placement_optimized(&mirrored, &game_state).unwrap();
    assert_eq!(best.position, Position::new(4, 0));
}

#[test]
fn the_fast_score_is_the_combined_score() {
    let game_state = create_test_game_state();
    for placement in create_test_placements() {
        assert_eq!(
            score_single_fast(&placement, &game_state),
            advanced_score(&placement, &game_state)
        );
    }
    // 10 * 2 + 1.5 * 42.5 + 2 * 3 + 1.2 * 2.4 + 0.5 * 1 = 93.13
    assert_eq!(
        score_single_fast(&create_test_placements()[0], &game_state),
        Score::from_hundredths(9313)
    );
}
