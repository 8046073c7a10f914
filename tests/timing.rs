use super_snake::score::{scale_difficulty, score_for_length, MaxEnemies};
use super_snake::timer::{DestroyAfter, Timer, TimerMode};

#[test]
fn one_shot_timer_finishes_once() {
    let mut t = Timer::new(100, TimerMode::Once);
    assert!(!t.tick(60));
    assert_eq!(t.remaining, 40);
    assert!(!t.finished());
    assert!(t.tick(50));
    assert!(t.just_finished());
    assert!(t.finished());
    assert!(!t.tick(10));
    assert!(!t.just_finished());
    assert!(t.finished());
}

#[test]
fn repeating_timer_starts_over() {
    let mut t = Timer::new(100, TimerMode::Repeating);
    assert!(!t.tick(99));
    assert!(t.tick(1));
    assert_eq!(t.remaining, 100);
    assert!(t.tick(250));
    assert_eq!(t.remaining, 50);
    assert!(t.finished());
    assert!(!t.tick(10));
    assert!(!t.finished());
    assert_eq!(t.remaining, 40);
}

#[test]
fn destroy_after_expires_once() {
    let mut d = DestroyAfter::new(250_000);
    assert!(!d.expire(200_000));
    assert!(d.expire(60_000));
    assert!(!d.expire(60_000));
}

#[test]
fn score_counts_segments_beyond_three() {
    assert_eq!(score_for_length(3), 0);
    assert_eq!(score_for_length(2), 0);
    assert_eq!(score_for_length(0), 0);
    assert_eq!(score_for_length(23), 20);
}

#[test]
fn difficulty_scales_with_score() {
    assert_eq!(scale_difficulty(0), 1);
    assert_eq!(scale_difficulty(20), 4);
    assert_eq!(scale_difficulty(4), 1);
    assert_eq!(scale_difficulty(5), 1);
    assert_eq!(scale_difficulty(8), 1);
    assert_eq!(scale_difficulty(10), 2);
    assert_eq!(scale_difficulty(15), 3);
    assert_eq!(scale_difficulty(100), 8);
    assert_eq!(scale_difficulty(usize::MAX), 123);
}

#[test]
fn difficulty_matches_the_logarithm() {
    for score in 0usize..2000 {
        let real = (2.0 * (score as f64 / 5.0).log2()).floor();
        let expected = if real < 1.0 { 1 } else { real as usize };
        assert_eq!(scale_difficulty(score), expected, "score {}", score);
    }
}

#[test]
fn max_enemies_starts_at_one() {
    assert_eq!(MaxEnemies::default().0, 1);
    assert_eq!(MaxEnemies::for_score(20).0, 4);
}
