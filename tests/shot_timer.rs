use invadors::shot::{Shot, EXPLOSION_MICROS, SHOT_STEP_MICROS};
use invadors::timer::Timer;

#[test]
fn timer_counts_down_and_resets() {
    let mut t = Timer::from_micros(100);
    assert!(!t.ready());
    t.update(40);
    assert_eq!(t.time_left, 60);
    t.update(100);
    assert_eq!(t.time_left, 0);
    assert!(t.ready());
    t.reset();
    assert_eq!(t.time_left, 100);
    assert!(!t.ready());
}

#[test]
fn shot_new_is_in_flight() {
    let s = Shot::new(3, 7);
    assert_eq!((s.x, s.y), (3, 7));
    assert!(!s.exploding);
    assert!(!s.dead());
    assert_eq!(s.timer.duration, SHOT_STEP_MICROS);
}

#[test]
fn shot_moves_up_one_row_per_step() {
    let mut s = Shot::new(3, 7);
    s.update(SHOT_STEP_MICROS * 5);
    assert_eq!(s.y, 6);
    assert_eq!(s.timer.time_left, SHOT_STEP_MICROS);
}

#[test]
fn shot_at_row_zero_is_dead() {
    let mut s = Shot::new(3, 1);
    s.update(SHOT_STEP_MICROS);
    assert_eq!(s.y, 0);
    assert!(s.dead());
}

#[test]
fn explosion_runs_its_duration() {
    let mut s = Shot::new(3, 7);
    s.explode();
    assert!(s.exploding);
    assert!(!s.dead());
    s.update(10);
    s.explode();
    assert_eq!(s.age, 0);
    s.update(EXPLOSION_MICROS - 1);
    assert!(!s.dead());
    assert_eq!(s.y, 7);
    s.update(1);
    assert_eq!(s.age, EXPLOSION_MICROS);
    assert!(!s.dead());
    s.update(1);
    assert!(s.dead());
    s.update(u64::MAX);
    assert_eq!(s.age, u64::MAX);
    assert_eq!(s.y, 7);
}
