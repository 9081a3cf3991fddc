use filler::ai::heuristics::{
    advanced_score, analyze_density, analyze_edge_control, analyze_flood_fill,
    count_hostile_neighbors, count_nearby_our_territory, count_nearby_territory,
    count_opponent_neighbors, covered_cells, detect_weak_positions, edge_control_points,
    flood_fill_reachable, nearby_territory, reachable_cells, weak_position_units,
};
use filler::game_state::{GameState, Grid, Position, Shape};
use filler::placement::{validate_placement, Placement, PlacementError};
use filler::score::Score;

fn create_test_grid() -> Grid {
    let raw = vec![
        vec!['.', '.', '.', '.', '.'],
        vec!['.', '@', '@', '.', '.'],
        vec!['.', '@', '.', '.', '.'],
        vec!['.', '.', '.', '$', '$'],
        vec!['.', '.', '.', '$', '.'],
    ];
    Grid::from_chars(5, 5, raw)
}

fn create_test_game_state() -> GameState {
    let grid = create_test_grid();
    let shape = Shape::from_chars(1, 1, vec![vec!['#']]);
    GameState::new(1, grid, shape)
}

fn create_test_placement(x: usize, y: usize) -> Placement {
    let shape = Shape::from_chars(1, 1, vec![vec!['#']]);
    Placement {
        position: Position::new(x, y),
        shape,
        cells_added: 1,
        territory_touches: 1,
    }
}

fn grid_of(rows: &[&str]) -> Grid {
    let raw: Vec<Vec<char>> = rows.iter().map(|r| r.chars().collect()).collect();
    Grid::from_chars(rows[0].len(), rows.len(), raw)
}

fn piece_at(x: usize, y: usize, piece: &[&str]) -> Placement {
    let raw: Vec<Vec<char>> = piece.iter().map(|r| r.chars().collect()).collect();
    Placement {
        position: Position::new(x, y),
        shape: Shape::from_chars(piece[0].len(), piece.len(), raw),
        cells_added: 0,
        territory_touches: 0,
    }
}

#[test]
fn test_flood_fill_reachable() {
    let grid = create_test_grid();
    let start = vec![Position::new(1, 1)];

    let reachable = flood_fill_reachable(&grid, &start);

    assert!(reachable > 0);
}

#[test]
fn test_analyze_flood_fill() {
    let game_state = create_test_game_state();
    let placement = create_test_placement(1, 0);
    let score = analyze_flood_fill(&placement, &game_state);

    assert!(score.is_positive());
}

#[test]
fn test_detect_weak_positions() {
    let game_state = create_test_game_state();
    let placement = create_test_placement(2, 3);
    let score = detect_weak_positions(&placement, &game_state);

    assert!(Score::from_hundredths(0).at_most(&score));
}

#[test]
fn test_analyze_density() {
    let game_state = create_test_game_state();
    let placement = create_test_placement(1, 2);
    let score = analyze_density(&placement, &game_state);

    assert!(Score::from_hundredths(0).at_most(&score));
}

#[test]
fn test_analyze_edge_control() {
    let grid = create_test_grid();

    let corner_placement = create_test_placement(0, 0);
    let corner_score = analyze_edge_control(&corner_placement, &grid);

    let edge_placement = create_test_placement(2, 0);
    let edge_score = analyze_edge_control(&edge_placement, &grid);

    let interior_placement = create_test_placement(2, 2);
    let interior_score = analyze_edge_control(&interior_placement, &grid);

    assert!(corner_score.exceeds(&edge_score));
    assert!(edge_score.exceeds(&interior_score));
}

#[test]
fn test_advanced_score_combines_heuristics() {
    let game_state = create_test_game_state();
    let placement = create_test_placement(1, 1);
    let score = advanced_score(&placement, &game_state);

    assert!(score.is_positive());
}

#[test]
fn test_count_opponent_neighbors() {
    let grid = create_test_grid();

    let pos = Position::new(3, 3);
    let count = count_opponent_neighbors(&grid, pos);

    assert!(count > 0);
}

#[test]
fn test_count_nearby_our_territory() {
    let grid = create_test_grid();

    let pos = Position::new(1, 1);
    let count = count_nearby_our_territory(&grid, pos);

    assert!(count >= 1);
}

#[test]
fn the_scenario_of_the_small_board() {
    let game_state = create_test_game_state();
    // A piece of one cell is legal exactly on the player's own cells: at
    // (1,0) it lies on an empty cell.
    assert_eq!(
        validate_placement(&game_state, Position::new(1, 0)),
        Err(PlacementError::NoTerritoryContact)
    );
    let legal = validate_placement(&game_state, Position::new(1, 1)).unwrap();
    assert_eq!(legal.territory_touches, 1);
    assert_eq!(legal.cells_added, 0);
    let flood = analyze_flood_fill(&create_test_placement(1, 0), &game_state);
    assert!(flood.is_positive());
    let corner = analyze_edge_control(&create_test_placement(0, 0), &game_state.grid);
    let edge = analyze_edge_control(&create_test_placement(2, 0), &game_state.grid);
    let interior = analyze_edge_control(&create_test_placement(2, 2), &game_state.grid);
    assert!(corner.exceeds(&edge));
    assert!(edge.exceeds(&interior));
}

#[test]
fn flood_fill_counts_the_empty_cells_that_walks_reach() {
    let grid = create_test_grid();
    // Nineteen cells are empty; (4,4) is shut in by the opponent.
    assert_eq!(flood_fill_reachable(&grid, &[Position::new(1, 1)]), 18);
    // An empty start is not counted itself.
    assert_eq!(flood_fill_reachable(&grid, &[Position::new(0, 0)]), 17);
    // From (4,4) nothing is reached.
    assert_eq!(flood_fill_reachable(&grid, &[Position::new(4, 4)]), 0);
    // From an opponent's cell next to it, its empty neighbours are.
    assert_eq!(flood_fill_reachable(&grid, &[Position::new(3, 4)]), 19);
    assert_eq!(flood_fill_reachable(&grid, &[]), 0);
    // Starts off the board are passed over.
    assert_eq!(flood_fill_reachable(&grid, &[Position::new(5, 0)]), 0);
    assert_eq!(
        flood_fill_reachable(&grid, &[Position::new(9, 9), Position::new(1, 1)]),
        18
    );
    // A start given twice counts as one.
    assert_eq!(
        flood_fill_reachable(&grid, &[Position::new(1, 1), Position::new(1, 1)]),
        18
    );
}

#[test]
fn more_seeds_on_occupied_cells_never_reach_less() {
    let grid = grid_of(&["..@@..", "..@@.."]);
    let small = flood_fill_reachable(&grid, &[Position::new(2, 0)]);
    let large = flood_fill_reachable(&grid, &[Position::new(2, 0), Position::new(3, 0)]);
    assert_eq!(small, 4);
    assert_eq!(large, 8);
    assert!(small <= large);
}

#[test]
fn a_seed_on_a_counted_cell_can_lower_the_count() {
    let grid = grid_of(&["..."]);
    assert_eq!(flood_fill_reachable(&grid, &[Position::new(0, 0)]), 2);
    assert_eq!(
        flood_fill_reachable(&grid, &[Position::new(0, 0), Position::new(1, 0)]),
        1
    );
}

#[test]
fn walls_of_either_player_stop_the_flood() {
    let grid = grid_of(&[".@...", ".$...", ".a..."]);
    assert_eq!(flood_fill_reachable(&grid, &[Position::new(0, 0)]), 2);
    assert_eq!(flood_fill_reachable(&grid, &[Position::new(2, 1)]), 8);
    assert_eq!(flood_fill_reachable(&grid, &[Position::new(1, 1)]), 12);
}

#[test]
fn the_flood_fill_score_is_two_and_a_half_points_a_cell() {
    let game_state = create_test_game_state();
    assert_eq!(reachable_cells(&create_test_placement(1, 0), &game_state), 17);
    assert_eq!(
        analyze_flood_fill(&create_test_placement(1, 0), &game_state),
        Score::from_hundredths(4250)
    );
    assert_eq!(
        analyze_flood_fill(&create_test_placement(1, 1), &game_state),
        Score::from_hundredths(4500)
    );
    assert_eq!(
        analyze_flood_fill(&create_test_placement(4, 4), &game_state),
        Score::from_hundredths(0)
    );
    // A piece off the board covers nothing and reaches nothing.
    assert_eq!(
        analyze_flood_fill(&create_test_placement(7, 7), &game_state),
        Score::from_hundredths(0)
    );
}

#[test]
fn the_covered_cells_leave_out_what_lands_off_the_board() {
    let grid = create_test_grid();
    let piece = piece_at(3, 4, &["###", "#.."]);
    assert_eq!(
        covered_cells(&piece, &grid),
        vec![Position::new(3, 4), Position::new(4, 4)]
    );
    let far = piece_at(usize::MAX, usize::MAX, &["##"]);
    assert_eq!(covered_cells(&far, &grid), Vec::<Position>::new());
    let inside = piece_at(0, 0, &[".#", "#."]);
    assert_eq!(
        covered_cells(&inside, &grid),
        vec![Position::new(1, 0), Position::new(0, 1)]
    );
}

#[test]
fn hostile_neighbours_are_counted_for_the_acting_player() {
    let grid = create_test_grid();
    assert_eq!(count_opponent_neighbors(&grid, Position::new(3, 3)), 2);
    assert_eq!(count_opponent_neighbors(&grid, Position::new(4, 4)), 2);
    assert_eq!(count_opponent_neighbors(&grid, Position::new(2, 3)), 1);
    assert_eq!(count_opponent_neighbors(&grid, Position::new(0, 0)), 0);
    assert_eq!(count_hostile_neighbors(&grid, Position::new(1, 1), 1), 0);
    assert_eq!(count_hostile_neighbors(&grid, Position::new(1, 1), 2), 2);
    assert_eq!(count_hostile_neighbors(&grid, Position::new(0, 1), 2), 1);
    assert_eq!(count_hostile_neighbors(&grid, Position::new(5, 3), 1), 1);
    assert_eq!(
        count_hostile_neighbors(&grid, Position::new(usize::MAX, usize::MAX), 1),
        0
    );
}

#[test]
fn the_weak_position_score_follows_the_hostile_neighbours() {
    let grid = grid_of(&[".$.", "$.$", ".$.", "..."]);
    let state = GameState::new(1, grid, Shape::from_chars(1, 1, vec![vec!['#']]));
    // Four hostile neighbours: nothing.
    assert_eq!(
        detect_weak_positions(&create_test_placement(1, 1), &state),
        Score::from_hundredths(0)
    );
    // Two: a point and a half.
    assert_eq!(
        detect_weak_positions(&create_test_placement(0, 0), &state),
        Score::from_hundredths(150)
    );
    // One or none: three points.
    assert_eq!(
        detect_weak_positions(&create_test_placement(1, 3), &state),
        Score::from_hundredths(300)
    );
    assert_eq!(
        detect_weak_positions(&create_test_placement(0, 3), &state),
        Score::from_hundredths(300)
    );
    // The sum over a piece of three cells: (0,2) has two hostile
    // neighbours, (1,2) none, (2,2) two.
    let row = piece_at(0, 2, &["###"]);
    assert_eq!(weak_position_units(&row, &state), 4);
    assert_eq!(detect_weak_positions(&row, &state), Score::from_hundredths(600));
    // For player 2 the same cells are its own.
    let other = GameState::new(2, state.grid.clone(), state.current_piece.clone());
    assert_eq!(
        detect_weak_positions(&create_test_placement(1, 1), &other),
        Score::from_hundredths(300)
    );
}

#[test]
fn nearby_territory_is_counted_within_two_steps() {
    let grid = grid_of(&["@@@@@", "@@@@@", "@@@@@", "@@@@@", "@@@@@"]);
    // The twelve cells at Manhattan distance 1 or 2, not the corners of
    // the square around the centre.
    assert_eq!(count_nearby_our_territory(&grid, Position::new(2, 2)), 12);
    assert_eq!(count_nearby_our_territory(&grid, Position::new(0, 0)), 5);
    assert_eq!(count_nearby_our_territory(&grid, Position::new(2, 0)), 8);
    assert_eq!(count_nearby_territory(&grid, Position::new(2, 2), 2), 0);
    assert_eq!(count_nearby_our_territory(&grid, Position::new(6, 2)), 1);
    assert_eq!(count_nearby_our_territory(&grid, Position::new(7, 2)), 0);
    let test_grid = create_test_grid();
    assert_eq!(count_nearby_our_territory(&test_grid, Position::new(1, 1)), 2);
    assert_eq!(count_nearby_our_territory(&test_grid, Position::new(1, 2)), 2);
    assert_eq!(count_nearby_our_territory(&test_grid, Position::new(3, 1)), 2);
    assert_eq!(count_nearby_territory(&test_grid, Position::new(3, 1), 2), 1);
}

#[test]
fn density_is_averaged_over_the_covered_cells() {
    let game_state = create_test_game_state();
    assert_eq!(
        analyze_density(&create_test_placement(1, 2), &game_state),
        Score::from_hundredths(160)
    );
    // Cells (0,1), (1,1), (2,1) see 3, 2 and 2 cells of the player: the
    // score is 0.8 * 7 / 3 points.
    let row = piece_at(0, 1, &["###"]);
    assert_eq!(nearby_territory(&row, &game_state), (7, 3));
    let density = analyze_density(&row, &game_state);
    assert_eq!(density, Score::from_mixed(0, 560, 3));
    assert_eq!((density.whole, density.part, density.parts), (186, 2, 3));
    // Nothing covered: zero.
    assert_eq!(
        analyze_density(&create_test_placement(9, 9), &game_state),
        Score::from_hundredths(0)
    );
}

#[test]
fn edge_control_gives_two_points_a_corner_and_one_a_border_cell() {
    let grid = create_test_grid();
    assert_eq!(
        analyze_edge_control(&create_test_placement(0, 0), &grid),
        Score::from_hundredths(200)
    );
    assert_eq!(
        analyze_edge_control(&create_test_placement(4, 4), &grid),
        Score::from_hundredths(200)
    );
    assert_eq!(
        analyze_edge_control(&create_test_placement(2, 0), &grid),
        Score::from_hundredths(100)
    );
    assert_eq!(
        analyze_edge_control(&create_test_placement(4, 2), &grid),
        Score::from_hundredths(100)
    );
    assert_eq!(
        analyze_edge_control(&create_test_placement(2, 2), &grid),
        Score::from_hundredths(0)
    );
    // Down the left border from the corner: 2 + 1 + 1.
    let column = piece_at(0, 0, &["#", "#", "#"]);
    assert_eq!(edge_control_points(&column, &grid), 4);
    // On a board of one cell that cell is a corner.
    let dot = grid_of(&["."]);
    assert_eq!(
        analyze_edge_control(&create_test_placement(0, 0), &dot),
        Score::from_hundredths(200)
    );
}

#[test]
fn the_combined_score_weighs_the_signals() {
    let game_state = create_test_game_state();
    // 10 * 1 + 1.5 * 45 + 2 * 3 + 1.2 * 1.6 + 0.5 * 0 = 85.42.
    assert_eq!(
        advanced_score(&create_test_placement(1, 1), &game_state),
        Score::from_hundredths(8542)
    );
    // At the corner (0,0): 10 + 1.5 * 42.5 + 2 * 3 + 1.2 * 0.8 + 0.5 * 2.
    assert_eq!(
        advanced_score(&create_test_placement(0, 0), &game_state),
        Score::from_hundredths(1000 + 6375 + 600 + 96 + 100)
    );
    // The same inputs give the same score.
    assert_eq!(
        advanced_score(&create_test_placement(0, 0), &game_state),
        advanced_score(&create_test_placement(0, 0), &game_state)
    );
}
