use snake_game::direction::Direction;
use snake_game::snake::Snake;

#[test]
fn opposite_of_each_direction() {
    assert_eq!(Direction::Up.opposite(), Direction::Down);
    assert_eq!(Direction::Down.opposite(), Direction::Up);
    assert_eq!(Direction::Left.opposite(), Direction::Right);
    assert_eq!(Direction::Right.opposite(), Direction::Left);
}

#[test]
fn opposite_twice_is_identity() {
    for d in [Direction::Up, Direction::Down, Direction::Left, Direction::Right] {
        assert_eq!(d.opposite().opposite(), d);
        assert_ne!(d.opposite(), d);
    }
}

#[test]
fn new_snake_has_three_cells_heading_right() {
    let s = Snake::new(2, 2);
    assert_eq!(s.segments(), vec![(4, 2), (3, 2), (2, 2)]);
    assert_eq!(s.moving_direction(), Direction::Right);
    assert_eq!(s.head_position(), (4, 2));
    assert_eq!(s.len(), 3);
}

#[test]
fn new_snake_at_negative_origin() {
    let s = Snake::new(-7, -3);
    assert_eq!(s.segments(), vec![(-5, -3), (-6, -3), (-7, -3)]);
}

#[test]
fn next_position_follows_heading_or_override() {
    let s = Snake::new(2, 2);
    assert_eq!(s.next_position(None), (5, 2));
    assert_eq!(s.next_position(Some(Direction::Right)), (5, 2));
    assert_eq!(s.next_position(Some(Direction::Up)), (4, 1));
    assert_eq!(s.next_position(Some(Direction::Down)), (4, 3));
    assert_eq!(s.next_position(Some(Direction::Left)), (3, 2));
    assert_eq!(s.segments(), vec![(4, 2), (3, 2), (2, 2)]);
    assert_eq!(s.moving_direction(), Direction::Right);
}

#[test]
fn overlap_ignores_the_tail() {
    let s = Snake::new(2, 2);
    assert!(s.is_overlap_except_tail(4, 2));
    assert!(s.is_overlap_except_tail(3, 2));
    assert!(!s.is_overlap_except_tail(2, 2));
    assert!(!s.is_overlap_except_tail(5, 2));
    assert!(!s.is_overlap_except_tail(4, 3));
}

#[test]
fn move_forward_without_override() {
    let mut s = Snake::new(2, 2);
    s.move_foward(None);
    assert_eq!(s.segments(), vec![(5, 2), (4, 2), (3, 2)]);
    assert_eq!(s.moving_direction(), Direction::Right);
}

#[test]
fn move_forward_with_override_changes_heading() {
    let mut s = Snake::new(2, 2);
    s.move_foward(Some(Direction::Up));
    assert_eq!(s.segments(), vec![(4, 1), (4, 2), (3, 2)]);
    assert_eq!(s.moving_direction(), Direction::Up);
    s.move_foward(None);
    assert_eq!(s.segments(), vec![(4, 0), (4, 1), (4, 2)]);
    s.move_foward(Some(Direction::Left));
    assert_eq!(s.segments(), vec![(3, 0), (4, 0), (4, 1)]);
    s.move_foward(Some(Direction::Down));
    assert_eq!(s.segments(), vec![(3, 1), (3, 0), (4, 0)]);
}

#[test]
fn steps_keep_the_length() {
    let mut s = Snake::new(2, 2);
    let turns = [Direction::Down, Direction::Right, Direction::Up, Direction::Right];
    for i in 0..40 {
        s.move_foward(Some(turns[i % 4]));
        assert_eq!(s.len(), 3);
    }
}

#[test]
fn restore_before_any_step_does_nothing() {
    let mut s = Snake::new(2, 2);
    s.restore_last_removed();
    assert_eq!(s.segments(), vec![(4, 2), (3, 2), (2, 2)]);
}

#[test]
fn restore_appends_the_dropped_tail_once() {
    let mut s = Snake::new(2, 2);
    s.move_foward(None);
    s.restore_last_removed();
    assert_eq!(s.segments(), vec![(5, 2), (4, 2), (3, 2), (2, 2)]);
    assert_eq!(s.head_position(), (5, 2));
    s.restore_last_removed();
    assert_eq!(s.segments(), vec![(5, 2), (4, 2), (3, 2), (2, 2)]);
    s.move_foward(None);
    assert_eq!(s.segments(), vec![(6, 2), (5, 2), (4, 2), (3, 2)]);
}
