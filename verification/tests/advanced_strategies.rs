use filler::ai::advanced_strategies::{
    advanced_balanced, aggressive_expansion, aggressive_score, defensive, defensive_score,
    opportunistic, opportunistic_score, strategic_blocking, strategic_blocking_score,
    territorial_control, territorial_control_score,
};
use filler::game_state::{GameState, Grid, Position, Shape};
use filler::placement::Placement;
use filler::score::Score;

fn create_test_placement(x: usize, y: usize, cells: usize, touches: usize) -> Placement {
    Placement {
        position: Position::new(x, y),
        shape: Shape::from_chars(1, 1, vec![vec!['#']]),
        cells_added: cells,
        territory_touches: touches,
    }
}

fn create_test_game_state() -> GameState {
    let raw = vec![
        vec!['.', '.', '.', '.', '.'],
        vec!['.', '@', '@', '.', '.'],
        vec!['.', '@', '.', '.', '.'],
        vec!['.', '.', '.', '$', '$'],
        vec!['.', '.', '.', '$', '.'],
    ];
    let grid = Grid::from_chars(5, 5, raw);
    let shape = Shape::from_chars(1, 1, vec![vec!['#']]);
    GameState::new(1, grid, shape)
}

#[test]
fn test_aggressive_expansion() {
    let game_state = create_test_game_state();
    let placements = vec![
        create_test_placement(1, 1, 3, 1),
        create_test_placement(0, 0, 1, 1),
        create_test_placement(2, 2, 2, 2),
    ];

    let best = aggressive_expansion(&placements, &game_state);
    assert!(best.is_some());

    let selected = best.unwrap();
    assert_eq!(selected.cells_added, 3);
}

#[test]
fn test_aggressive_expansion_empty() {
    let game_state = create_test_game_state();
    let placements = vec![];

    let best = aggressive_expansion(&placements, &game_state);
    assert!(best.is_none());
}

#[test]
fn test_opportunistic() {
    let game_state = create_test_game_state();
    let placements = vec![
        create_test_placement(1, 1, 2, 1),
        create_test_placement(3, 3, 1, 2),
        create_test_placement(2, 2, 1, 1),
    ];

    let best = opportunistic(&placements, &game_state);
    assert!(best.is_some());
}

#[test]
fn test_defensive() {
    let game_state = create_test_game_state();
    let placements = vec![
        create_test_placement(1, 1, 1, 2),
        create_test_placement(0, 0, 1, 1),
        create_test_placement(2, 2, 2, 1),
    ];

    let best = defensive(&placements, &game_state);
    assert!(best.is_some());
}

#[test]
fn test_strategic_blocking() {
    let game_state = create_test_game_state();
    let placements = vec![
        create_test_placement(1, 1, 2, 2),
        create_test_placement(3, 3, 1, 3),
        create_test_placement(2, 2, 1, 1),
    ];

    let best = strategic_blocking(&placements, &game_state);
    assert!(best.is_some());
}

#[test]
fn test_advanced_balanced() {
    let game_state = create_test_game_state();
    let placements = vec![
        create_test_placement(1, 1, 2, 1),
        create_test_placement(0, 0, 1, 1),
        create_test_placement(2, 2, 2, 2),
    ];

    let best = advanced_balanced(&placements, &game_state);
    assert!(best.is_some());
}

#[test]
fn test_territorial_control() {
    let game_state = create_test_game_state();
    let placements = vec![
        create_test_placement(1, 1, 3, 1),
        create_test_placement(0, 0, 1, 1),
        create_test_placement(2, 2, 2, 2),
    ];

    let best = territorial_control(&placements, &game_state);
    assert!(best.is_some());
}

#[test]
fn test_all_strategies_handle_single_placement() {
    let game_state = create_test_game_state();
    let placements = vec![create_test_placement(1, 1, 2, 1)];

    assert!(aggressive_expansion(&placements, &game_state).is_some());
    assert!(opportunistic(&placements, &game_state).is_some());
    assert!(defensive(&placements, &game_state).is_some());
    assert!(strategic_blocking(&placements, &game_state).is_some());
    assert!(advanced_balanced(&placements, &game_state).is_some());
    assert!(territorial_control(&placements, &game_state).is_some());
}

#[test]
fn every_strategy_has_its_formula() {
    let state = create_test_game_state();
    // At (0,0): 17 cells reached, no hostile neighbour, one cell of the
    // player within two steps, a corner of the board.
    let p = create_test_placement(0, 0, 2, 3);
    // 10 * 2 + 2 * 42.5
    assert_eq!(aggressive_score(&p, &state), Score::from_hundredths(2000 + 8500));
    // 2.5 * 3 + 5 * 2
    assert_eq!(opportunistic_score(&p, &state), Score::from_hundredths(750 + 1000));
    // 2 * 0.8 + 2 * 3 + 1.5 * 2
    assert_eq!(defensive_score(&p, &state), Score::from_hundredths(160 + 600 + 300));
    // 1.8 * 3 + 3 * 3 + 3 * 2
    assert_eq!(
        strategic_blocking_score(&p, &state),
        Score::from_hundredths(540 + 900 + 600)
    );
    // 8 * 2 + 1.5 * 42.5 + 1.5 * 3 + 0.8 * 2
    assert_eq!(
        territorial_control_score(&p, &state),
        Score::from_hundredths(1600 + 6375 + 450 + 160)
    );
}

#[test]
fn the_defensive_score_keeps_the_average_exact() {
    let state = create_test_game_state();
    let row = Placement {
        position: Position::new(0, 1),
        shape: Shape::from_chars(3, 1, vec![vec!['#', '#', '#']]),
        cells_added: 1,
        territory_touches: 2,
    };
    // Density 0.8 * 7 / 3, weighted 2; two touches; one border cell.
    let score = defensive_score(&row, &state);
    assert_eq!(score, Score::from_mixed(400 + 150, 1120, 3));
    assert_eq!((score.whole, score.part, score.parts), (923, 1, 3));
}

#[test]
fn ties_go_to_the_later_placement_under_every_strategy() {
    let state = create_test_game_state();
    let first = create_test_placement(0, 0, 1, 1);
    let twin = create_test_placement(0, 0, 1, 1);
    let placements = vec![first, create_test_placement(2, 2, 0, 0), twin];
    // The twins at (0,0) share every score; the piece at (2,2) has a lower
    // one under each strategy.
    let picks = [
        aggressive_expansion(&placements, &state),
        opportunistic(&placements, &state),
        defensive(&placements, &state),
        strategic_blocking(&placements, &state),
        advanced_balanced(&placements, &state),
        territorial_control(&placements, &state),
    ];
    for pick in picks {
        assert_eq!(pick.unwrap().position, Position::new(0, 0));
    }
    let swapped = vec![
        create_test_placement(2, 2, 0, 0),
        create_test_placement(0, 0, 1, 1),
        create_test_placement(4, 0, 1, 1),
    ];
    // (0,0) and (4,0) are corners with the same reach and no neighbours:
    // the later one is picked.
    assert_eq!(
        aggressive_expansion(&swapped, &state).unwrap().position,
        Position::new(4, 0)
    );
    assert_eq!(
        opportunistic(&swapped, &state).unwrap().position,
        Position::new(4, 0)
    );
}

#[test]
fn the_strategies_disagree_where_their_weights_do() {
    let state = create_test_game_state();
    let placements = vec![
        // Much room, no contact.
        create_test_placement(0, 0, 1, 0),
        // In the middle of the player's territory.
        create_test_placement(1, 1, 0, 3),
        // Next to the opponent.
        create_test_placement(2, 3, 2, 0),
    ];
    assert_eq!(
        aggressive_expansion(&placements, &state).unwrap().position,
        Position::new(2, 3)
    );
    assert_eq!(
        defensive(&placements, &state).unwrap().position,
        Position::new(1, 1)
    );
    assert_eq!(
        opportunistic(&placements, &state).unwrap().position,
        Position::new(2, 3)
    );
    assert_eq!(
        strategic_blocking(&placements, &state).unwrap().position,
        Position::new(1, 1)
    );
}
