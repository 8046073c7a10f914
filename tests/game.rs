use std::collections::VecDeque;

use super_snake::attack::{EnemyAttack, CELL};
use super_snake::enemy::{Enemy, EnemyState, EnemyType};
use super_snake::game::{free_cell, Cue, Game, SNAKE_TIMESTEP};
use super_snake::snake::{Direction, Snake};
use super_snake::{GameState, Position};

fn pos(x: i32, y: i32) -> Position {
    Position { x, y }
}

fn snake_of(cells: &[(i32, i32)]) -> Snake {
    Snake { segments: cells.iter().map(|&(x, y)| pos(x, y)).collect::<VecDeque<_>>() }
}

fn playing() -> Game {
    let mut g = Game::new();
    g.start();
    g
}

fn at_cell(x: i32, y: i32) -> EnemyAttack {
    EnemyAttack { x: x as i64 * CELL, y: y as i64 * CELL, dx: 0, dy: 0 }
}

#[test]
fn a_new_game_waits_at_the_menu() {
    let mut g = Game::new();
    assert_eq!(g.state, GameState::Menu);
    let before = g.snake.segments.clone();
    assert!(g.frame(SNAKE_TIMESTEP as u32, Some(Direction::Up)).is_empty());
    assert_eq!(g.snake.segments, before);
    assert!(!g.restart());
    assert_eq!(g.state, GameState::Menu);
}

#[test]
fn reversing_is_refused_in_every_direction() {
    for d in [Direction::Up, Direction::Down, Direction::Left, Direction::Right] {
        let mut g = playing();
        g.direction = d;
        g.snake = match d {
            Direction::Up => snake_of(&[(0, 0), (0, -1), (0, -2)]),
            Direction::Down => snake_of(&[(0, 0), (0, 1), (0, 2)]),
            Direction::Left => snake_of(&[(0, 0), (1, 0), (2, 0)]),
            Direction::Right => snake_of(&[(0, 0), (-1, 0), (-2, 0)]),
        };
        g.input(d.opposite());
        assert_eq!(g.direction, d);
    }
}

#[test]
fn turning_is_taken_but_not_back_into_the_neck() {
    let mut g = playing();
    g.input(Direction::Up);
    assert_eq!(g.direction, Direction::Up);
    g.input(Direction::Down);
    assert_eq!(g.direction, Direction::Down);
    g.input(Direction::Left);
    assert_eq!(g.direction, Direction::Down);
    g.input(Direction::Right);
    assert_eq!(g.direction, Direction::Right);
    g.direction = Direction::Up;
    g.input(Direction::Down);
    assert_eq!(g.direction, Direction::Down);
}

#[test]
fn the_snake_moves_on_its_timestep() {
    let mut g = playing();
    g.max_enemies.0 = 0;
    g.frame(100_000, None);
    assert_eq!(g.snake.head(), pos(0, 0));
    g.frame(25_000, None);
    assert_eq!(g.snake.head(), pos(1, 0));
    g.frame(125_000, Some(Direction::Up));
    assert_eq!(g.snake.head(), pos(1, 1));
    assert_eq!(g.state, GameState::Playing);
}

#[test]
fn running_off_the_field_ends_the_game_once() {
    let mut g = playing();
    g.snake = snake_of(&[(15, 0), (14, 0), (13, 0)]);
    let cues = g.frame(SNAKE_TIMESTEP as u32, None);
    assert_eq!(cues, vec![Cue::DeathByBumping]);
    assert_eq!(g.state, GameState::GameOver);
    assert!(g.frame(SNAKE_TIMESTEP as u32, None).is_empty());
    assert!(g.restart());
    assert_eq!(g.state, GameState::Playing);
    assert_eq!(g.snake.segments, Snake::default().segments);
    assert_eq!(g.direction, Direction::Right);
    assert!(g.enemies.is_empty() && g.attacks.is_empty());
}

#[test]
fn biting_the_body_ends_the_game() {
    let mut g = playing();
    g.snake = snake_of(&[(0, 0), (0, 1), (1, 1), (1, 0), (1, -1)]);
    g.direction = Direction::Right;
    assert!(g.move_snake());
    assert_eq!(g.state, GameState::GameOver);
}

#[test]
fn eating_an_enemy_grows_the_snake() {
    let mut g = playing();
    g.enemies.push(Enemy::new(EnemyType::Wizard, pos(0, 0), 1_000_000));
    g.enemies.push(Enemy::new(EnemyType::Knight, pos(5, 5), 1_000_000));
    assert_eq!(g.eat(), 1);
    assert_eq!(g.enemies.len(), 1);
    assert_eq!(g.enemies[0].position, pos(5, 5));
    assert_eq!(g.snake.len(), 4);
    assert_eq!(g.snake.tail(), pos(-3, 0));
    assert_eq!(g.score(), 1);
}

#[test]
fn spawning_respects_the_cap() {
    let mut g = playing();
    assert!(g.spawn(pos(3, 3), EnemyType::Knight, 500_000));
    assert!(!g.spawn(pos(4, 4), EnemyType::Knight, 500_000));
    assert_eq!(g.enemies.len(), 1);
    assert!(!g.spawn_enemy());
    g.max_enemies.0 = 3;
    assert!(g.spawn_enemy());
    let e = g.enemies[1];
    assert!(e.position.in_world());
    assert!(!g.snake.contains(e.position));
    assert_eq!(e.state, EnemyState::Idle);
}

#[test]
fn free_cells_avoid_the_snake() {
    let snake = Snake::default();
    for _ in 0..200 {
        let p = free_cell(&snake).unwrap();
        assert!(p.in_world());
        assert!(!snake.contains(p));
    }
}

#[test]
fn projectiles_leaving_the_field_vanish_the_same_frame() {
    let mut g = playing();
    g.attacks.push(EnemyAttack { x: 15 * CELL + CELL / 2, y: 0, dx: 1000, dy: 0 });
    g.attacks.push(EnemyAttack { x: 0, y: -10 * CELL, dx: 0, dy: -1000 });
    g.attacks.push(EnemyAttack { x: 5 * CELL, y: 5 * CELL, dx: 1000, dy: 0 });
    g.move_attacks(100_000);
    assert_eq!(g.attacks.len(), 2);
    assert_eq!(g.attacks[0], EnemyAttack { x: 0, y: -10 * CELL - 500_000_000, dx: 0, dy: -1000 });
    assert_eq!(g.attacks[1].x, 5 * CELL + 500_000_000);
    g.move_attacks(200_000);
    assert_eq!(g.attacks.len(), 1);
    assert_eq!(g.attacks[0].x, 6 * CELL + 500_000_000);
}

#[test]
fn two_hits_in_one_frame_cost_one_segment() {
    let mut g = playing();
    g.snake = snake_of(&[(0, 0), (-1, 0), (-2, 0), (-3, 0), (-4, 0)]);
    g.attacks.push(at_cell(7, 7));
    g.attacks.push(at_cell(0, 0));
    g.attacks.push(at_cell(-3, 0));
    assert_eq!(g.resolve_hits(), Some(1));
    assert_eq!(g.snake.len(), 4);
    assert_eq!(g.attacks, vec![at_cell(7, 7), at_cell(-3, 0)]);
    assert_eq!(g.state, GameState::Playing);
    assert_eq!(g.resolve_hits(), Some(1));
    assert_eq!(g.snake.len(), 3);
    assert_eq!(g.state, GameState::GameOver);
}

#[test]
fn no_hit_leaves_everything() {
    let mut g = playing();
    g.attacks.push(at_cell(7, 7));
    assert_eq!(g.resolve_hits(), None);
    assert_eq!(g.snake.len(), 3);
    assert_eq!(g.attacks.len(), 1);
}

#[test]
fn a_knight_below_hit_costs_a_segment() {
    let mut g = playing();
    g.snake = snake_of(&[(0, 0), (-1, 0), (-2, 0), (-3, 0), (-4, 0)]);
    let mut k = Enemy::new(EnemyType::Knight, pos(-1, 1), 1_000_000);
    k.state = EnemyState::Attacking;
    g.enemies.push(k);
    let cues = g.enemies_attack();
    assert_eq!(cues, vec![Cue::KnightAttack, Cue::Hit]);
    assert_eq!(g.snake.len(), 4);
    assert_eq!(g.enemies[0].state, EnemyState::Idle);
    assert_eq!(g.state, GameState::Playing);
    let pause = g.enemies[0].decision_timer.duration;
    assert!((500_000..1_500_000).contains(&pause));
}

#[test]
fn knights_strike_once_each_and_stop_when_the_game_ends() {
    let mut g = playing();
    g.snake = snake_of(&[(0, 0), (-1, 0), (-2, 0), (-3, 0)]);
    for x in [0, -1, -2] {
        let mut k = Enemy::new(EnemyType::Knight, pos(x, 1), 1_000_000);
        k.state = EnemyState::Attacking;
        g.enemies.push(k);
    }
    let cues = g.enemies_attack();
    assert_eq!(cues, vec![Cue::KnightAttack, Cue::Hit, Cue::KnightAttack, Cue::KnightAttack]);
    assert_eq!(g.snake.len(), 3);
    assert_eq!(g.state, GameState::GameOver);
    assert!(g.enemies.iter().all(|e| e.state == EnemyState::Idle));
}

#[test]
fn a_wizard_fires_at_a_segment() {
    let mut g = playing();
    let mut w = Enemy::new(EnemyType::Wizard, pos(0, 5), 1_000_000);
    w.state = EnemyState::Attacking;
    g.enemies.push(w);
    let cues = g.enemies_attack();
    assert_eq!(cues, vec![Cue::WizardAttack]);
    assert_eq!(g.attacks.len(), 1);
    assert_eq!(g.snake.segments, Snake::default().segments);
    let pause = g.enemies[0].decision_timer.duration;
    assert!((500_000..1_500_000).contains(&pause));
    let a = g.attacks[0];
    let aimed_at_segment = [pos(0, 0), pos(-1, 0), pos(-2, 0)]
        .iter()
        .any(|&p| a == EnemyAttack::aim(pos(0, 5), p));
    assert!(aimed_at_segment);
    assert!(a.dy < 0);
}

#[test]
fn difficulty_follows_the_score() {
    let mut g = playing();
    let mut cells = vec![];
    for i in 0..23 {
        cells.push((-i, 0));
    }
    g.snake = snake_of(&cells);
    g.update_difficulty();
    assert_eq!(g.max_enemies.0, 4);
    assert_eq!(g.score(), 20);
}

#[test]
fn frames_keep_the_snake_alive_or_end_the_game() {
    let mut g = playing();
    let dirs = [Direction::Up, Direction::Left, Direction::Down, Direction::Right];
    for step in 0..400 {
        let req = if step % 7 == 0 { Some(dirs[(step / 7) % 4]) } else { None };
        g.frame(40_000, req);
        assert!(g.snake.len() >= 1);
        if g.state == GameState::Playing {
            assert!(g.snake.len() >= 3);
            assert!(g.snake.head().in_world());
        } else {
            assert_eq!(g.state, GameState::GameOver);
            g.restart();
        }
    }
}

#[test]
fn spawned_enemies_are_of_both_kinds() {
    let mut g = playing();
    g.max_enemies.0 = 200;
    for _ in 0..200 {
        g.spawn_enemy();
    }
    assert!(g.enemies.len() > 150);
    assert!(g.enemies.iter().any(|e| e.kind == EnemyType::Wizard));
    assert!(g.enemies.iter().any(|e| e.kind == EnemyType::Knight));
    assert!(g.enemies.iter().all(|e| e.position.in_world() && !g.snake.contains(e.position)));
}
