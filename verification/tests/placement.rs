use filler::game_state::{GameState, Grid, Position, Shape};
use filler::placement::{
    find_all_valid_placements, find_placements_touching_territory, get_absolute_positions,
    get_neighbors, validate_placement, Placement, PlacementError,
};

fn create_test_game_state() -> GameState {
    let grid_raw = vec![
        vec!['.', '.', '.', '.', '.'],
        vec!['.', '@', '.', '.', '.'],
        vec!['.', '.', '.', '$', '.'],
        vec!['.', '.', '.', '.', '.'],
        vec!['.', '.', '.', '.', '.'],
    ];

    let piece_raw = vec![vec!['.', '#', '#'], vec!['#', '.', '.']];

    let grid = Grid::from_chars(5, 5, grid_raw);
    let shape = Shape::from_chars(3, 2, piece_raw);

    GameState::new(1, grid, shape)
}

fn state_of(player: u8, rows: &[&str], piece: &[&str]) -> GameState {
    let grid_raw: Vec<Vec<char>> = rows.iter().map(|r| r.chars().collect()).collect();
    let piece_raw: Vec<Vec<char>> = piece.iter().map(|r| r.chars().collect()).collect();
    let grid = Grid::from_chars(rows[0].len(), rows.len(), grid_raw);
    let width = if piece.is_empty() { 0 } else { piece[0].len() };
    let shape = Shape::from_chars(width, piece.len(), piece_raw);
    GameState::new(player, grid, shape)
}

#[test]
fn test_get_absolute_positions() {
    let shape_raw = vec![vec!['.', '#'], vec!['#', '.']];
    let shape = Shape::from_chars(2, 2, shape_raw);

    let base = Position::new(3, 3);
    let positions = get_absolute_positions(base, &shape).unwrap();

    assert_eq!(positions.len(), 2);
    assert!(positions.contains(&Position::new(4, 3)));
    assert!(positions.contains(&Position::new(3, 4)));
}

#[test]
fn test_validate_placement_basic() {
    let _game_state = create_test_game_state();
}

#[test]
fn test_validate_placement_territory_touch() {
    let _game_state = create_test_game_state();
    let neighbors = get_neighbors(Position::new(1, 1), 5, 5);
    assert_eq!(neighbors.len(), 4);
}

#[test]
fn test_placement_struct() {
    let placement = Placement {
        position: Position::new(2, 3),
        shape: Shape::from_chars(2, 2, vec![vec!['.', '#'], vec!['#', '.']]),
        cells_added: 2,
        territory_touches: 1,
    };

    assert_eq!(placement.position.x, 2);
    assert_eq!(placement.position.y, 3);
    assert_eq!(placement.cells_added, 2);
    assert_eq!(placement.territory_touches, 1);
}

#[test]
fn test_placement_error_display() {
    assert_eq!(
        PlacementError::OutOfBounds.to_string(),
        "Piece extends outside grid boundaries"
    );
    assert_eq!(
        PlacementError::NoTerritoryContact.to_string(),
        "Piece doesn't touch existing territory"
    );
}

#[test]
fn test_get_neighbors() {
    let neighbors = get_neighbors(Position::new(2, 2), 5, 5);
    assert_eq!(neighbors.len(), 4);
    assert!(neighbors.contains(&Position::new(2, 1)));
    assert!(neighbors.contains(&Position::new(2, 3)));
    assert!(neighbors.contains(&Position::new(1, 2)));
    assert!(neighbors.contains(&Position::new(3, 2)));
}

#[test]
fn test_get_neighbors_corner() {
    let neighbors = get_neighbors(Position::new(0, 0), 5, 5);
    assert_eq!(neighbors.len(), 2);
    assert!(neighbors.contains(&Position::new(0, 1)));
    assert!(neighbors.contains(&Position::new(1, 0)));
}

#[test]
fn test_empty_shape_error() {
    let empty_shape_raw = vec![vec!['.', '.'], vec!['.', '.']];
    let empty_shape = Shape::from_chars(2, 2, empty_shape_raw);

    let grid_raw = vec![vec!['.'; 5]; 5];
    let grid = Grid::from_chars(5, 5, grid_raw);
    let game_state = GameState::new(1, grid, empty_shape);

    let result = validate_placement(&game_state, Position::new(0, 0));
    assert_eq!(result, Err(PlacementError::EmptyShape));
}

#[test]
fn every_error_has_its_sentence() {
    assert_eq!(
        PlacementError::CollisionWithOpponent.to_string(),
        "Piece overlaps with opponent territory"
    );
    assert_eq!(
        PlacementError::CollisionWithSelf.to_string(),
        "Piece overlaps with own territory"
    );
    assert_eq!(
        PlacementError::MultipleContacts.to_string(),
        "Piece touches territory at multiple cells"
    );
    assert_eq!(PlacementError::EmptyShape.to_string(), "Piece shape is empty");
    assert_eq!(
        PlacementError::OutOfBounds.message(),
        "Piece extends outside grid boundaries"
    );
}

#[test]
fn neighbors_come_up_down_left_right() {
    assert_eq!(
        get_neighbors(Position::new(2, 2), 5, 5),
        vec![
            Position::new(2, 1),
            Position::new(2, 3),
            Position::new(1, 2),
            Position::new(3, 2)
        ]
    );
    assert_eq!(
        get_neighbors(Position::new(4, 4), 5, 5),
        vec![Position::new(4, 3), Position::new(3, 4)]
    );
    assert_eq!(get_neighbors(Position::new(0, 0), 1, 1), Vec::<Position>::new());
    assert_eq!(get_neighbors(Position::new(0, 0), 0, 0), Vec::<Position>::new());
    assert_eq!(
        get_neighbors(Position::new(usize::MAX, usize::MAX), 5, 5),
        vec![
            Position::new(usize::MAX, usize::MAX - 1),
            Position::new(usize::MAX - 1, usize::MAX)
        ]
    );
}

#[test]
fn a_legal_placement_comes_back_with_its_counts() {
    let state = create_test_game_state();
    // Solid cells of the piece: (1,0), (2,0), (0,1). Anchored at (1,0) the
    // last one lands on the player's cell (1,1).
    let placement = validate_placement(&state, Position::new(1, 0)).unwrap();
    assert_eq!(placement.position, Position::new(1, 0));
    assert_eq!(placement.cells_added, 2);
    assert_eq!(placement.territory_touches, 1);
    assert_eq!(placement.shape, state.current_piece);
    assert_eq!(
        placement.get_absolute_positions(),
        vec![Position::new(2, 0), Position::new(3, 0), Position::new(1, 1)]
    );
    // Anchored at (0,1) the first one lands on it.
    let other = validate_placement(&state, Position::new(0, 1)).unwrap();
    assert_eq!(other.cells_added, 2);
    assert_eq!(other.territory_touches, 1);
}

#[test]
fn each_rule_yields_its_error() {
    let state = create_test_game_state();
    assert_eq!(
        validate_placement(&state, Position::new(0, 0)),
        Err(PlacementError::NoTerritoryContact)
    );
    assert_eq!(
        validate_placement(&state, Position::new(3, 1)),
        Err(PlacementError::OutOfBounds)
    );
    assert_eq!(
        validate_placement(&state, Position::new(0, 4)),
        Err(PlacementError::OutOfBounds)
    );
    assert_eq!(
        validate_placement(&state, Position::new(2, 2)),
        Err(PlacementError::CollisionWithOpponent)
    );
    assert_eq!(
        validate_placement(&state, Position::new(usize::MAX, usize::MAX)),
        Err(PlacementError::OutOfBounds)
    );
    let crowded = state_of(1, &["@@@", "@@@"], &["##"]);
    assert_eq!(
        validate_placement(&crowded, Position::new(0, 0)),
        Err(PlacementError::MultipleContacts)
    );
}

#[test]
fn the_first_offending_cell_decides_the_error() {
    // Row-major order of the solid cells: (0,0) then (1,0).
    let state = state_of(1, &["@$"], &["##"]);
    assert_eq!(
        validate_placement(&state, Position::new(0, 0)),
        Err(PlacementError::CollisionWithOpponent)
    );
    // Anchored at (1,0): the first cell lands on the opponent, the second
    // off the board.
    assert_eq!(
        validate_placement(&state, Position::new(1, 0)),
        Err(PlacementError::CollisionWithOpponent)
    );
    // Here the first solid cell lands off the board and the second on the
    // opponent.
    let tall = state_of(1, &[".", "$"], &[".#", "#."]);
    assert_eq!(
        validate_placement(&tall, Position::new(0, 0)),
        Err(PlacementError::OutOfBounds)
    );
}

#[test]
fn the_acting_player_decides_whose_cells_count() {
    let rows = ["@.", ".$"];
    let as_first = state_of(1, &rows, &["#"]);
    let as_second = state_of(2, &rows, &["#"]);
    assert!(validate_placement(&as_first, Position::new(0, 0)).is_ok());
    assert_eq!(
        validate_placement(&as_first, Position::new(1, 1)),
        Err(PlacementError::CollisionWithOpponent)
    );
    assert!(validate_placement(&as_second, Position::new(1, 1)).is_ok());
    assert_eq!(
        validate_placement(&as_second, Position::new(0, 0)),
        Err(PlacementError::CollisionWithOpponent)
    );
    let stranger = state_of(3, &rows, &["#"]);
    assert_eq!(
        validate_placement(&stranger, Position::new(0, 0)),
        Err(PlacementError::CollisionWithOpponent)
    );
    assert_eq!(
        validate_placement(&stranger, Position::new(1, 0)),
        Err(PlacementError::NoTerritoryContact)
    );
}

#[test]
fn the_empty_shape_is_refused_at_every_anchor() {
    let state = state_of(1, &["@.", ".$"], &["..", ".."]);
    for y in 0..4 {
        for x in 0..4 {
            assert_eq!(
                validate_placement(&state, Position::new(x, y)),
                Err(PlacementError::EmptyShape)
            );
        }
    }
    assert_eq!(find_all_valid_placements(&state).len(), 0);
}

#[test]
fn a_single_cell_piece_is_legal_on_the_players_cells_only() {
    let state = state_of(
        1,
        &[".....", ".@@..", ".@...", "...$$", "...$."],
        &["#"],
    );
    assert_eq!(
        validate_placement(&state, Position::new(1, 0)),
        Err(PlacementError::NoTerritoryContact)
    );
    let placement = validate_placement(&state, Position::new(1, 1)).unwrap();
    assert_eq!(placement.territory_touches, 1);
    assert_eq!(placement.cells_added, 0);
    let anchors: Vec<Position> = find_all_valid_placements(&state)
        .iter()
        .map(|p| p.position)
        .collect();
    assert_eq!(
        anchors,
        vec![Position::new(1, 1), Position::new(2, 1), Position::new(1, 2)]
    );
}

#[test]
fn all_valid_placements_come_in_row_major_order() {
    let state = create_test_game_state();
    let placements = find_all_valid_placements(&state);
    let anchors: Vec<Position> = placements.iter().map(|p| p.position).collect();
    assert_eq!(anchors, vec![Position::new(1, 0), Position::new(0, 1)]);
    for placement in &placements {
        assert_eq!(placement.cells_added, 2);
        assert_eq!(placement.territory_touches, 1);
        assert_eq!(
            validate_placement(&state, placement.position).as_ref(),
            Ok(placement)
        );
    }
    for y in 0..5 {
        for x in 0..5 {
            let pos = Position::new(x, y);
            assert_eq!(
                validate_placement(&state, pos).is_ok(),
                anchors.contains(&pos)
            );
        }
    }
}

#[test]
fn the_targeted_search_keeps_each_anchor_once() {
    let state = create_test_game_state();
    // The neighbours of (1,1) are tried above, below, left and right; of
    // them (1,0) and (0,1) are legal anchors.
    let found = find_placements_touching_territory(&state, &[Position::new(1, 1)]);
    let anchors: Vec<Position> = found.iter().map(|p| p.position).collect();
    assert_eq!(anchors, vec![Position::new(1, 0), Position::new(0, 1)]);
    for placement in &found {
        assert_eq!(
            validate_placement(&state, placement.position).as_ref(),
            Ok(placement)
        );
    }
    let twice = find_placements_touching_territory(
        &state,
        &[Position::new(1, 1), Position::new(1, 1)],
    );
    assert_eq!(twice.len(), 2);
    let none = find_placements_touching_territory(&state, &[]);
    assert_eq!(none.len(), 0);
    let elsewhere = find_placements_touching_territory(&state, &[Position::new(4, 4)]);
    assert_eq!(elsewhere.len(), 0);
}

#[test]
fn the_targeted_search_keeps_every_legal_neighbour() {
    let state = state_of(
        1,
        &[".....", ".@@..", ".@...", "...$$", "...$."],
        &["#"],
    );
    // A piece of one cell never lies on the cell next to its anchor: the
    // neighbours of (1,1) that are legal anchors are found all the same.
    let found = find_placements_touching_territory(&state, &[Position::new(1, 1)]);
    let anchors: Vec<Position> = found.iter().map(|p| p.position).collect();
    assert_eq!(anchors, vec![Position::new(1, 2), Position::new(2, 1)]);
    // A second cell adds its own legal neighbours behind them, and none twice.
    let found = find_placements_touching_territory(
        &state,
        &[Position::new(1, 1), Position::new(2, 1), Position::new(1, 2)],
    );
    let anchors: Vec<Position> = found.iter().map(|p| p.position).collect();
    assert_eq!(
        anchors,
        vec![Position::new(1, 2), Position::new(2, 1), Position::new(1, 1)]
    );
    // Next to the opponent's cells nothing is legal for player 1.
    let found = find_placements_touching_territory(&state, &[Position::new(4, 4)]);
    assert_eq!(found.len(), 0);
    // A given cell need not be territory: its neighbours are tried alike.
    let found = find_placements_touching_territory(&state, &[Position::new(1, 3)]);
    let anchors: Vec<Position> = found.iter().map(|p| p.position).collect();
    assert_eq!(anchors, vec![Position::new(1, 2)]);
}

#[test]
fn absolute_positions_that_do_not_fit_are_out_of_bounds() {
    let shape = Shape::from_chars(2, 1, vec![vec!['#', '#']]);
    assert_eq!(
        get_absolute_positions(Position::new(usize::MAX, 0), &shape),
        Err(PlacementError::OutOfBounds)
    );
    assert_eq!(
        get_absolute_positions(Position::new(usize::MAX - 1, 7), &shape),
        Ok(vec![
            Position::new(usize::MAX - 1, 7),
            Position::new(usize::MAX, 7)
        ])
    );
    let empty = Shape::from_chars(1, 1, vec![vec!['.']]);
    assert_eq!(
        get_absolute_positions(Position::new(usize::MAX, usize::MAX), &empty),
        Ok(vec![])
    );
}

#[test]
fn a_placement_clone_equals_what_it_was_cloned_from() {
    let state = create_test_game_state();
    let placement = validate_placement(&state, Position::new(1, 0)).unwrap();
    let copy = placement.clone();
    assert_eq!(copy, placement);
}
