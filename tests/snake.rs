use std::collections::VecDeque;

use super_snake::snake::{Direction, Snake};
use super_snake::Position;

fn pos(x: i32, y: i32) -> Position {
    Position { x, y }
}

fn snake_of(cells: &[(i32, i32)]) -> Snake {
    Snake { segments: cells.iter().map(|&(x, y)| pos(x, y)).collect::<VecDeque<_>>() }
}

fn cells(snake: &Snake) -> Vec<(i32, i32)> {
    snake.segments.iter().map(|p| (p.x, p.y)).collect()
}

#[test]
fn default_snake_has_three_segments_heading_right() {
    let snake = Snake::default();
    assert_eq!(cells(&snake), vec![(0, 0), (-1, 0), (-2, 0)]);
    assert_eq!(snake.direction(), Direction::Right);
    assert_eq!(snake.head(), pos(0, 0));
    assert_eq!(snake.tail(), pos(-2, 0));
}

#[test]
fn one_move_right_shifts_every_segment() {
    let mut snake = Snake::default();
    snake.step(Direction::Right);
    assert_eq!(cells(&snake), vec![(1, 0), (0, 0), (-1, 0)]);
}

#[test]
fn moves_follow_the_direction() {
    let mut snake = Snake::default();
    snake.step(Direction::Up);
    assert_eq!(cells(&snake), vec![(0, 1), (0, 0), (-1, 0)]);
    snake.step(Direction::Left);
    assert_eq!(cells(&snake), vec![(-1, 1), (0, 1), (0, 0)]);
    assert_eq!(snake.direction(), Direction::Left);
    snake.step(Direction::Down);
    assert_eq!(cells(&snake), vec![(-1, 0), (-1, 1), (0, 1)]);
    assert_eq!(snake.direction(), Direction::Down);
}

#[test]
fn growth_extends_the_tail_in_line() {
    let mut snake = Snake::default();
    snake.grow();
    assert_eq!(cells(&snake), vec![(0, 0), (-1, 0), (-2, 0), (-3, 0)]);
}

#[test]
fn growth_follows_a_bent_tail() {
    let mut snake = snake_of(&[(0, 0), (0, -1), (1, -1)]);
    snake.grow();
    assert_eq!(snake.tail(), pos(2, -1));
    let mut upward = snake_of(&[(0, 0), (0, 1)]);
    upward.grow();
    assert_eq!(upward.tail(), pos(0, 2));
}

#[test]
fn head_on_a_former_cell_is_a_collision() {
    let snake = snake_of(&[(0, 0), (1, 0), (0, 0)]);
    assert!(snake.collision());
}

#[test]
fn head_out_of_the_field_is_a_collision() {
    assert!(snake_of(&[(16, 0), (15, 0), (14, 0)]).collision());
    assert!(snake_of(&[(0, -12), (0, -11), (0, -10)]).collision());
    assert!(!snake_of(&[(15, 11), (14, 11), (13, 11)]).collision());
    assert!(!Snake::default().collision());
}

#[test]
fn damage_cuts_from_the_tail_and_saturates() {
    let mut snake = snake_of(&[(0, 0), (-1, 0), (-2, 0), (-3, 0), (-4, 0)]);
    snake.damage(2);
    assert_eq!(cells(&snake), vec![(0, 0), (-1, 0), (-2, 0)]);
    snake.damage(0);
    assert_eq!(snake.len(), 3);
    snake.damage(10);
    assert_eq!(snake.len(), 0);
}

#[test]
fn three_segments_or_fewer_is_dead() {
    assert!(Snake::default().is_dead());
    assert!(!snake_of(&[(0, 0), (-1, 0), (-2, 0), (-3, 0)]).is_dead());
    assert!(snake_of(&[(0, 0)]).is_dead());
}

#[test]
fn contains_finds_every_segment() {
    let snake = Snake::default();
    assert!(snake.contains(pos(-1, 0)));
    assert!(snake.contains(pos(-2, 0)));
    assert!(!snake.contains(pos(1, 0)));
}

#[test]
fn opposite_is_an_involution() {
    for d in [Direction::Up, Direction::Down, Direction::Left, Direction::Right] {
        assert_ne!(d.opposite(), d);
        assert_eq!(d.opposite().opposite(), d);
        let v = d.to_vec();
        let w = d.opposite().to_vec();
        assert_eq!((v.x + w.x, v.y + w.y), (0, 0));
        assert_eq!(Direction::from_offset(v.x as i64, v.y as i64), Some(d));
    }
    assert_eq!(Direction::Up.opposite(), Direction::Down);
    assert_eq!(Direction::Left.opposite(), Direction::Right);
    assert_eq!(Direction::from_offset(1, 1), None);
    assert_eq!(Direction::from_offset(2, 0), None);
    assert_eq!(Direction::default(), Direction::Right);
}

#[test]
fn bounds_are_inclusive() {
    assert!(!pos(14, 0).within(13, 13));
    assert!(pos(13, 13).within(13, 13));
    assert!(pos(-13, -13).within(13, 13));
    assert!(!pos(0, -14).within(13, 13));
    assert!(pos(15, 11).in_world());
    assert!(pos(-15, -11).in_world());
    assert!(!pos(16, 0).in_world());
    assert!(!pos(0, 12).in_world());
    assert_eq!(pos(3, -4).as_tuple(), (3, -4));
}
