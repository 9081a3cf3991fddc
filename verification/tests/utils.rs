use filler::game_state::Position;
use filler::utils::{
    are_adjacent_4, are_adjacent_8, chebyshev_distance, clamp, manhattan_distance,
};

#[test]
fn test_manhattan_distance() {
    let a = Position::new(0, 0);
    let b = Position::new(3, 4);
    assert_eq!(manhattan_distance(a, b), 7);
}

#[test]
fn test_chebyshev_distance() {
    let a = Position::new(0, 0);
    let b = Position::new(3, 4);
    assert_eq!(chebyshev_distance(a, b), 4);
}

#[test]
fn test_are_adjacent_4() {
    let a = Position::new(2, 2);

    assert!(are_adjacent_4(a, Position::new(2, 1)));
    assert!(are_adjacent_4(a, Position::new(2, 3)));
    assert!(are_adjacent_4(a, Position::new(1, 2)));
    assert!(are_adjacent_4(a, Position::new(3, 2)));

    assert!(!are_adjacent_4(a, Position::new(3, 3)));
    assert!(!are_adjacent_4(a, Position::new(2, 0)));
}

#[test]
fn test_are_adjacent_8() {
    let a = Position::new(2, 2);

    assert!(are_adjacent_8(a, Position::new(2, 1)));
    assert!(are_adjacent_8(a, Position::new(3, 3)));
    assert!(are_adjacent_8(a, Position::new(1, 2)));

    assert!(!are_adjacent_8(a, Position::new(4, 4)));
    assert!(!are_adjacent_8(a, Position::new(2, 0)));
}

#[test]
fn distances_are_symmetric_and_zero_on_the_same_cell() {
    let a = Position::new(7, 2);
    let b = Position::new(1, 9);
    assert_eq!(manhattan_distance(a, b), 13);
    assert_eq!(manhattan_distance(b, a), 13);
    assert_eq!(chebyshev_distance(a, b), 7);
    assert_eq!(chebyshev_distance(b, a), 7);
    assert_eq!(manhattan_distance(a, a), 0);
    assert_eq!(chebyshev_distance(a, a), 0);
    assert!(!are_adjacent_4(a, a));
    assert!(!are_adjacent_8(a, a));
}

#[test]
fn distances_hold_for_large_coordinates() {
    let a = Position::new(usize::MAX, 0);
    let b = Position::new(0, 0);
    assert_eq!(manhattan_distance(a, b), usize::MAX);
    assert_eq!(chebyshev_distance(a, Position::new(0, usize::MAX)), usize::MAX);
    assert!(!are_adjacent_4(a, Position::new(0, usize::MAX)));
    assert!(are_adjacent_4(a, Position::new(usize::MAX - 1, 0)));
}

#[test]
fn clamp_holds_a_value_between_the_bounds() {
    assert_eq!(clamp(5, 1, 10), 5);
    assert_eq!(clamp(-3, 1, 10), 1);
    assert_eq!(clamp(42, 1, 10), 10);
    assert_eq!(clamp(1, 1, 10), 1);
    assert_eq!(clamp(10, 1, 10), 10);
    assert_eq!(clamp(7u8, 9u8, 3u8), 9u8);
    assert_eq!(clamp('m', 'a', 'f'), 'f');
}
