use bomberman::coordinate::{Coordinate, Direction};

#[test]
fn test_down_within_bounds() {
    let coordinate = Coordinate::new(2, 3, 4);
    let result = coordinate.down();
    assert_eq!(result, Some(Coordinate::new(3, 3, 4)));
}

#[test]
fn test_down_at_max_value() {
    let coordinate = Coordinate::new(4, 3, 4);
    let result = coordinate.down();
    assert_eq!(result, None);
}

#[test]
fn test_up() {
    let coordinate = Coordinate::new(2, 3, 5);
    let result = coordinate.up();
    assert_eq!(result, Some(Coordinate::new(1, 3, 5)));
}

#[test]
fn test_up_at_minimum_x() {
    let coordinate = Coordinate::new(0, 3, 5);
    let result = coordinate.up();
    assert_eq!(result, None);
}

#[test]
fn test_right() {
    let coordinate = Coordinate::new(2, 3, 5);
    let result = coordinate.right();
    assert_eq!(result, Some(Coordinate::new(2, 4, 5)));
}

#[test]
fn test_right_at_maximum_y() {
    let coordinate = Coordinate::new(2, 5, 5);
    let result = coordinate.right();
    assert_eq!(result, None);
}

#[test]
fn test_left() {
    let coord = Coordinate::new(2, 3, 5);
    let result = coord.left();
    assert_eq!(result, Some(Coordinate::new(2, 2, 5)));
}

#[test]
fn test_left_at_minimum_y() {
    let coord = Coordinate::new(2, 0, 5);
    let result = coord.left();
    assert_eq!(result, None);
}

#[test]
fn down_stops_at_last_row() {
    // On a 5-by-5 grid row 4 is the last one.
    assert_eq!(Coordinate::new(4, 1, 5).down(), None);
    assert_eq!(Coordinate::new(3, 1, 5).down(), Some(Coordinate::new(4, 1, 5)));
}

#[test]
fn right_stops_at_last_column() {
    assert_eq!(Coordinate::new(1, 4, 5).right(), None);
    assert_eq!(Coordinate::new(1, 3, 5).right(), Some(Coordinate::new(1, 4, 5)));
}

#[test]
fn step_follows_each_direction() {
    let c = Coordinate::new(2, 2, 5);
    assert_eq!(c.step(Direction::Up), Some(Coordinate::new(1, 2, 5)));
    assert_eq!(c.step(Direction::Down), Some(Coordinate::new(3, 2, 5)));
    assert_eq!(c.step(Direction::Left), Some(Coordinate::new(2, 1, 5)));
    assert_eq!(c.step(Direction::Right), Some(Coordinate::new(2, 3, 5)));
    assert_eq!(Coordinate::new(0, 0, 1).step(Direction::Down), None);
}
