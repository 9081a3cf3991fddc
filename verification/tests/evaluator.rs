use filler::ai::evaluator::{
    evaluate_placement, rank_by, rank_placements, select_best_placement, stable_descending,
};
use filler::game_state::{GameState, Grid, Position, Shape};
use filler::placement::Placement;
use filler::score::Score;

fn create_test_game_state() -> GameState {
    let grid = Grid::from_chars(
        10,
        10,
        (0..10).map(|_| (0..10).map(|_| '.').collect()).collect(),
    );

    let shape = Shape::from_chars(2, 2, vec![vec!['.', '#'], vec!['#', '.']]);

    GameState::new(1, grid, shape)
}

fn placement_at(state: &GameState, x: usize, y: usize, cells: usize, touches: usize) -> Placement {
    Placement {
        position: Position { x, y },
        shape: state.current_piece.clone(),
        cells_added: cells,
        territory_touches: touches,
    }
}

#[test]
fn test_evaluate_placement_expansion() {
    let game_state = create_test_game_state();
    let placement = Placement {
        position: Position { x: 4, y: 5 },
        shape: game_state.current_piece.clone(),
        cells_added: 2,
        territory_touches: 1,
    };

    let score = evaluate_placement(&placement, &game_state);
    assert!(score.exceeds(&Score::from_hundredths(1500)));
}

#[test]
fn test_evaluate_placement_near_center() {
    let game_state = create_test_game_state();

    let placement_center = Placement {
        position: Position { x: 5, y: 5 },
        shape: game_state.current_piece.clone(),
        cells_added: 1,
        territory_touches: 1,
    };

    let placement_edge = Placement {
        position: Position { x: 0, y: 0 },
        shape: game_state.current_piece.clone(),
        cells_added: 1,
        territory_touches: 1,
    };

    let score_center = evaluate_placement(&placement_center, &game_state);
    let score_edge = evaluate_placement(&placement_edge, &game_state);

    assert!(score_center.exceeds(&score_edge));
}

#[test]
fn test_rank_placements_order() {
    let game_state = create_test_game_state();

    let placements = vec![
        Placement {
            position: Position { x: 4, y: 5 },
            shape: game_state.current_piece.clone(),
            cells_added: 1,
            territory_touches: 1,
        },
        Placement {
            position: Position { x: 4, y: 6 },
            shape: game_state.current_piece.clone(),
            cells_added: 3,
            territory_touches: 1,
        },
        Placement {
            position: Position { x: 6, y: 5 },
            shape: game_state.current_piece.clone(),
            cells_added: 2,
            territory_touches: 1,
        },
    ];

    let ranked = rank_placements(&placements, &game_state);

    assert_eq!(ranked.len(), 3);
    assert!(ranked[1].1.at_most(&ranked[0].1));
    assert!(ranked[2].1.at_most(&ranked[1].1));
}

#[test]
fn test_select_best_placement() {
    let game_state = create_test_game_state();

    let placements = vec![
        Placement {
            position: Position { x: 4, y: 5 },
            shape: game_state.current_piece.clone(),
            cells_added: 1,
            territory_touches: 1,
        },
        Placement {
            position: Position { x: 4, y: 6 },
            shape: game_state.current_piece.clone(),
            cells_added: 3,
            territory_touches: 1,
        },
    ];

    let best = select_best_placement(&placements, &game_state);

    assert!(best.is_some());
    let best_placement = best.unwrap();
    assert_eq!(best_placement.cells_added, 3);
}

#[test]
fn test_select_best_placement_empty() {
    let game_state = create_test_game_state();
    let placements: Vec<Placement> = vec![];

    let best = select_best_placement(&placements, &game_state);
    assert!(best.is_none());
}

#[test]
fn the_plain_evaluation_adds_its_three_parts() {
    let state = create_test_game_state();
    // One step from the centre cell (5,5): 10 * 2 + 0.5 * 14 + 1.
    assert_eq!(
        evaluate_placement(&placement_at(&state, 4, 5, 2, 1), &state),
        Score::from_hundredths(2000 + 700 + 100)
    );
    // On the centre cell the bonus is 7.5 points.
    assert_eq!(
        evaluate_placement(&placement_at(&state, 5, 5, 0, 0), &state),
        Score::from_hundredths(750)
    );
    // Ten steps away it is 2.5 points.
    assert_eq!(
        evaluate_placement(&placement_at(&state, 0, 0, 1, 1), &state),
        Score::from_hundredths(1000 + 250 + 100)
    );
    // Fourteen steps away half a point, fifteen and more nothing.
    assert_eq!(
        evaluate_placement(&placement_at(&state, 19, 5, 0, 0), &state),
        Score::from_hundredths(50)
    );
    assert_eq!(
        evaluate_placement(&placement_at(&state, 20, 5, 0, 0), &state),
        Score::from_hundredths(0)
    );
    assert_eq!(
        evaluate_placement(&placement_at(&state, usize::MAX, usize::MAX, 0, 3), &state),
        Score::from_hundredths(300)
    );
}

#[test]
fn the_ranking_is_stable() {
    let state = create_test_game_state();
    let placements = vec![
        placement_at(&state, 4, 5, 1, 1),
        placement_at(&state, 5, 4, 1, 1),
        placement_at(&state, 5, 5, 3, 0),
        placement_at(&state, 6, 5, 1, 1),
        placement_at(&state, 0, 0, 0, 0),
    ];
    let ranked = rank_placements(&placements, &state);
    let anchors: Vec<(usize, usize)> = ranked
        .iter()
        .map(|(p, _)| (p.position.x, p.position.y))
        .collect();
    assert_eq!(anchors, vec![(5, 5), (4, 5), (5, 4), (6, 5), (0, 0)]);
    assert_eq!(ranked[0].1, Score::from_hundredths(3750));
    assert_eq!(ranked[1].1, Score::from_hundredths(1800));
    assert_eq!(ranked[3].1, Score::from_hundredths(1800));
    assert_eq!(ranked[4].1, Score::from_hundredths(250));
    assert_eq!(rank_placements(&[], &state).len(), 0);
}

#[test]
fn the_best_of_the_plain_evaluation_is_the_last_of_its_equals() {
    let state = create_test_game_state();
    let placements = vec![
        placement_at(&state, 0, 0, 0, 0),
        placement_at(&state, 4, 5, 1, 1),
        placement_at(&state, 5, 4, 1, 1),
        placement_at(&state, 6, 5, 1, 1),
        placement_at(&state, 9, 9, 1, 1),
    ];
    let best = select_best_placement(&placements, &state).unwrap();
    assert_eq!(best.position, Position::new(6, 5));
    // The ranking keeps the order of the list among equals: its head is the
    // first of them, with the score of the placement picked.
    let ranked = rank_placements(&placements, &state);
    assert_eq!(ranked[0].0.position, Position::new(4, 5));
    assert_eq!(ranked[0].1, evaluate_placement(&best, &state));
    // Two placements that differ in nothing: the later one is picked.
    let mut first = placement_at(&state, 3, 3, 2, 1);
    let mut second = placement_at(&state, 3, 3, 2, 1);
    first.shape = filler::game_state::Shape::from_chars(1, 1, vec![vec!['#']]);
    second.shape = filler::game_state::Shape::from_chars(1, 1, vec![vec!['.']]);
    let picked = select_best_placement(&[first.clone(), second.clone()], &state).unwrap();
    assert_eq!(picked, second);
    let picked = select_best_placement(&[second, first.clone()], &state).unwrap();
    assert_eq!(picked, first);
}

#[test]
fn the_order_of_scores_lists_every_index_once() {
    let scores = vec![
        Score::from_hundredths(3),
        Score::from_hundredths(9),
        Score::from_mixed(3, 0, 5),
        Score::from_hundredths(1),
        Score::from_mixed(8, 3, 3),
        Score::from_mixed(3, 1, 2),
    ];
    assert_eq!(stable_descending(&scores), vec![1, 4, 5, 0, 2, 3]);
    assert_eq!(stable_descending(&vec![]), Vec::<usize>::new());
    let state = create_test_game_state();
    let placements = vec![
        placement_at(&state, 0, 0, 0, 0),
        placement_at(&state, 1, 0, 0, 0),
    ];
    let ranked = rank_by(
        &placements,
        &vec![Score::from_hundredths(1), Score::from_hundredths(2)],
    );
    assert_eq!(ranked[0].0.position, Position::new(1, 0));
    assert_eq!(ranked[0].1, Score::from_hundredths(2));
    assert_eq!(ranked[1].0.position, Position::new(0, 0));
}
