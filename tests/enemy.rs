use std::collections::VecDeque;

use super_snake::attack::{isqrt, EnemyAttack, CELL};
use super_snake::enemy::{
    random_position, random_target, AttackOutcome, Enemy, EnemyState, EnemyType,
    ENEMY_DECISION_TIME_MAX, ENEMY_DECISION_TIME_MIN, KNIGHT_ATTACK_ANIMATION,
    KNIGHT_DECISION_TIME_MAX, KNIGHT_DECISION_TIME_MIN, WIZARD_ATTACK_ANIMATION,
};
use super_snake::snake::Snake;
use super_snake::timer::TimerMode;
use super_snake::Position;

fn pos(x: i32, y: i32) -> Position {
    Position { x, y }
}

fn snake_of(cells: &[(i32, i32)]) -> Snake {
    Snake { segments: cells.iter().map(|&(x, y)| pos(x, y)).collect::<VecDeque<_>>() }
}

#[test]
fn new_enemy_is_idle_with_its_timers() {
    let e = Enemy::new(EnemyType::Knight, pos(2, 3), 700_000);
    assert_eq!(e.state, EnemyState::Idle);
    assert_eq!(e.target, None);
    assert_eq!(e.decision_timer.duration, 700_000);
    assert_eq!(e.atk_anim_timer.duration, KNIGHT_ATTACK_ANIMATION);
    assert_eq!(e.move_step_timer.mode, TimerMode::Repeating);
    let w = Enemy::new(EnemyType::Wizard, pos(0, 0), 1);
    assert_eq!(w.atk_anim_timer.duration, WIZARD_ATTACK_ANIMATION);
}

#[test]
fn state_predicates_and_transitions() {
    let mut s = EnemyState::Moving;
    assert!(s.is_moving() && !s.is_idle() && !s.is_attacking() && !s.is_attack_animation());
    s.to_attacking();
    assert!(s.is_attacking());
    s.to_idle();
    assert!(s.is_idle());
    assert!(EnemyState::AttackAnimation.is_attack_animation());
    assert_eq!(EnemyState::Attacking.weight(), 0);
    assert_eq!(EnemyState::Idle.weight(), 5);
}

#[test]
fn drawn_states_follow_the_weights() {
    let n = 30_000;
    let mut counts = [0usize; 4];
    for _ in 0..n {
        match EnemyState::randomize() {
            EnemyState::Idle => counts[0] += 1,
            EnemyState::AttackAnimation => counts[1] += 1,
            EnemyState::Moving => counts[2] += 1,
            EnemyState::Attacking => counts[3] += 1,
        }
    }
    assert_eq!(counts[3], 0);
    let share = |c: usize| c as f64 / n as f64;
    assert!((share(counts[0]) - 0.5).abs() < 0.02);
    assert!((share(counts[1]) - 0.2).abs() < 0.02);
    assert!((share(counts[2]) - 0.3).abs() < 0.02);
}

#[test]
fn drawn_pauses_and_cells_are_in_range() {
    for _ in 0..1000 {
        let w = Enemy::draw_first_decision_time(EnemyType::Wizard);
        assert!((ENEMY_DECISION_TIME_MIN..ENEMY_DECISION_TIME_MAX).contains(&w));
        let p = Enemy::draw_decision_time();
        assert!((ENEMY_DECISION_TIME_MIN..ENEMY_DECISION_TIME_MAX).contains(&p));
        let mut e = Enemy::new(EnemyType::Knight, Position { x: 0, y: 0 }, 1);
        e.reset_decision_timer();
        let d = e.decision_timer.duration;
        assert!((ENEMY_DECISION_TIME_MIN..ENEMY_DECISION_TIME_MAX).contains(&d));
        assert_eq!(e.decision_timer.remaining, d);
        let k = Enemy::draw_first_decision_time(EnemyType::Knight);
        assert!((KNIGHT_DECISION_TIME_MIN..KNIGHT_DECISION_TIME_MAX).contains(&k));
        assert!(random_position().in_world());
        let t = random_target();
        assert!(t.in_world() && t.x < 15 && t.y < 11);
    }
    let mut seen = std::collections::HashSet::new();
    for _ in 0..2000 {
        seen.insert(random_position());
    }
    assert!(seen.len() > 100);
}

#[test]
fn idle_enemy_decides_when_its_pause_runs_out() {
    let mut e = Enemy::new(EnemyType::Wizard, pos(0, 0), 100);
    assert!(!e.decide(60, EnemyState::AttackAnimation, 500));
    assert_eq!(e.state, EnemyState::Idle);
    assert!(e.decide(60, EnemyState::AttackAnimation, 500));
    assert_eq!(e.state, EnemyState::AttackAnimation);
    let mut k = Enemy::new(EnemyType::Knight, pos(0, 0), 100);
    assert!(!k.decide(100, EnemyState::AttackAnimation, 500));
    assert_eq!(k.state, EnemyState::AttackAnimation);
    let mut i = Enemy::new(EnemyType::Knight, pos(0, 0), 100);
    assert!(!i.decide(100, EnemyState::Idle, 500));
    assert_eq!(i.state, EnemyState::Idle);
    assert_eq!(i.decision_timer.remaining, 500);
}

#[test]
fn walking_enemy_takes_a_target_then_steps_diagonally() {
    let snake = snake_of(&[(10, 10), (9, 10), (8, 10)]);
    let mut e = Enemy::new(EnemyType::Wizard, pos(0, 0), 100);
    e.state = EnemyState::Moving;
    e.walk(1_000_000, &snake, pos(2, -1), 900);
    assert_eq!(e.target, Some(pos(2, -1)));
    assert_eq!(e.position, pos(0, 0));
    e.walk(100_000, &snake, pos(5, 5), 900);
    assert_eq!(e.position, pos(0, 0));
    e.walk(150_000, &snake, pos(5, 5), 900);
    assert_eq!(e.position, pos(1, -1));
    e.walk(250_000, &snake, pos(5, 5), 900);
    assert_eq!(e.position, pos(2, -1));
    assert_eq!(e.state, EnemyState::Moving);
    e.walk(250_000, &snake, pos(5, 5), 900);
    assert_eq!(e.state, EnemyState::Idle);
    assert_eq!(e.target, None);
    assert_eq!(e.decision_timer.remaining, 900);
}

#[test]
fn walking_enemy_stops_before_the_snake() {
    let snake = snake_of(&[(1, 1), (0, 1), (-1, 1)]);
    let mut e = Enemy::new(EnemyType::Knight, pos(0, 0), 100);
    e.state = EnemyState::Moving;
    e.target = Some(pos(5, 5));
    e.walk(250_000, &snake, pos(5, 5), 800);
    assert_eq!(e.position, pos(0, 0));
    assert_eq!(e.state, EnemyState::Idle);
    assert_eq!(e.target, None);
}

#[test]
fn preparation_ends_in_an_attack() {
    let far = snake_of(&[(10, 10), (9, 10), (8, 10)]);
    let mut w = Enemy::new(EnemyType::Wizard, pos(0, 0), 100);
    w.state = EnemyState::AttackAnimation;
    w.animate(400_000, &far);
    assert_eq!(w.state, EnemyState::AttackAnimation);
    w.animate(100_000, &far);
    assert_eq!(w.state, EnemyState::Attacking);
    assert_eq!(w.atk_anim_timer.remaining, WIZARD_ATTACK_ANIMATION);
}

#[test]
fn knight_strikes_early_at_a_segment_below() {
    let below = snake_of(&[(0, -1), (1, -1), (2, -1)]);
    let mut k = Enemy::new(EnemyType::Knight, pos(0, 0), 100);
    k.state = EnemyState::AttackAnimation;
    k.animate(1, &below);
    assert_eq!(k.state, EnemyState::Attacking);
    let mut w = Enemy::new(EnemyType::Wizard, pos(0, 0), 100);
    w.state = EnemyState::AttackAnimation;
    w.animate(1, &below);
    assert_eq!(w.state, EnemyState::AttackAnimation);
}

#[test]
fn attacks_fire_or_strike_then_idle() {
    let snake = snake_of(&[(3, 4), (2, 4), (1, 4)]);
    let mut w = Enemy::new(EnemyType::Wizard, pos(0, 0), 100);
    w.state = EnemyState::Attacking;
    let out = w.attack(&snake, pos(3, 4), 600_000);
    assert_eq!(out, AttackOutcome::Fired(EnemyAttack { x: 0, y: 0, dx: 600, dy: 800 }));
    assert_eq!(w.state, EnemyState::Idle);
    assert_eq!(w.decision_timer.remaining, 600_000);
    assert_eq!(w.attack(&snake, pos(3, 4), 1), AttackOutcome::Nothing);

    let mut k = Enemy::new(EnemyType::Knight, pos(3, 5), 100);
    k.state = EnemyState::Attacking;
    assert_eq!(k.attack(&snake, pos(0, 0), 1), AttackOutcome::Struck(true));
    let mut miss = Enemy::new(EnemyType::Knight, pos(3, 6), 100);
    miss.state = EnemyState::Attacking;
    assert_eq!(miss.attack(&snake, pos(0, 0), 1), AttackOutcome::Struck(false));
}

#[test]
fn integer_square_roots() {
    assert_eq!(isqrt(0), 0);
    assert_eq!(isqrt(1), 1);
    assert_eq!(isqrt(24), 4);
    assert_eq!(isqrt(25), 5);
    assert_eq!(isqrt(2_000_000), 1414);
    assert_eq!(isqrt(u64::MAX as u128), 4_294_967_295);
}

#[test]
fn aiming_normalizes_the_offset() {
    let a = EnemyAttack::aim(pos(1, 1), pos(4, 5));
    assert_eq!((a.x, a.y, a.dx, a.dy), (CELL, CELL, 600, 800));
    let d = EnemyAttack::aim(pos(0, 0), pos(-1, -1));
    assert_eq!((d.dx, d.dy), (-707, -707));
    let s = EnemyAttack::aim(pos(2, 2), pos(2, 2));
    assert_eq!((s.dx, s.dy), (0, 0));
    let l = EnemyAttack::aim(pos(0, 0), pos(0, -7));
    assert_eq!((l.dx, l.dy), (0, -1000));
}

#[test]
fn projectiles_fly_at_five_cells_a_second() {
    let mut a = EnemyAttack { x: 0, y: 0, dx: 1000, dy: 0 };
    a.advance(1_000_000);
    assert_eq!(a.x, 5 * CELL);
    assert_eq!(a.cell(), pos(5, 0));
    let mut b = EnemyAttack { x: 0, y: 0, dx: -600, dy: 800 };
    b.advance(100_000);
    assert_eq!((b.x, b.y), (-300_000_000, 400_000_000));
    assert_eq!(b.cell(), pos(-1, 0));
}

#[test]
fn projectile_cells_are_floors() {
    let a = EnemyAttack { x: -1, y: CELL - 1, dx: 0, dy: 0 };
    assert_eq!(a.cell(), pos(-1, 0));
    let b = EnemyAttack { x: -CELL, y: -CELL - 1, dx: 0, dy: 0 };
    assert_eq!(b.cell(), pos(-1, -2));
    assert!(EnemyAttack { x: 15 * CELL + CELL - 1, y: 0, dx: 0, dy: 0 }.in_world());
    assert!(!EnemyAttack { x: 16 * CELL, y: 0, dx: 0, dy: 0 }.in_world());
    assert!(!EnemyAttack { x: 0, y: -12 * CELL, dx: 0, dy: 0 }.in_world());
}

#[test]
fn hits_within_half_a_cell() {
    let a = EnemyAttack { x: 2 * CELL + CELL / 4, y: 3 * CELL, dx: 0, dy: 0 };
    assert!(a.hits(pos(2, 3)));
    assert!(!a.hits(pos(3, 3)));
    let edge = EnemyAttack { x: CELL / 2, y: 0, dx: 0, dy: 0 };
    assert!(!edge.hits(pos(0, 0)));
    let far = EnemyAttack { x: i64::MAX, y: i64::MIN, dx: 0, dy: 0 };
    assert!(!far.hits(pos(0, 0)));
}
