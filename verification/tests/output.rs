use filler::output::Move;

#[test]
fn test_move_creation() {
    let m = Move::new(5, 5);
    assert_eq!(m.x, 5);
    assert_eq!(m.y, 5);
}

#[test]
fn test_fallback_move() {
    let m = Move::fallback();
    assert_eq!(m.x, 0);
    assert_eq!(m.y, 0);
}

#[test]
fn test_move_equality() {
    let m1 = Move::new(5, 5);
    let m2 = Move::new(5, 5);
    assert_eq!(m1, m2);
}

#[test]
fn moves_differ_by_either_coordinate() {
    assert_ne!(Move::new(1, 2), Move::new(2, 1));
    assert_ne!(Move::new(1, 2), Move::new(1, 3));
    assert_eq!(Move::fallback(), Move::new(0, 0));
}
