use invadors::frame::{new_frame, Drawable};
use invadors::invaders::{
    cadence_micros, Direction, Invader, Invaders, INVADER_GLYPH_EARLY, INVADER_GLYPH_LATE,
};
use invadors::{NUM_COLS, NUM_ROWS};

#[test]
fn new_swarm_formation() {
    let inv = Invaders::new();
    assert_eq!(inv.army.len(), 72);
    for i in &inv.army {
        assert!(i.x > 1 && i.x < NUM_COLS - 2 && i.x % 2 == 0);
        assert!(i.y > 0 && i.y < 9 && i.y % 2 == 0);
    }
    assert!(matches!(inv.direction, Direction::Right));
    assert_eq!(inv.move_timer.duration, 2_000_000);
    assert!(!inv.all_killed());
    assert!(!inv.reached_bottom());
}

#[test]
fn cadence_values() {
    assert_eq!(cadence_micros(0), 200_000);
    assert_eq!(cadence_micros(1), 225_000);
    assert_eq!(cadence_micros(72), 2_000_000);
}

#[test]
fn kill_invader_at_removes_one_and_is_idempotent() {
    let mut inv = Invaders::new();
    assert!(inv.kill_invader_at(2, 2));
    assert_eq!(inv.army.len(), 71);
    assert!(!inv.kill_invader_at(2, 2));
    assert_eq!(inv.army.len(), 71);
    assert!(!inv.kill_invader_at(3, 2));
    assert_eq!(inv.army.len(), 71);
}

#[test]
fn swarm_waits_then_moves_right() {
    let mut inv = Invaders::new();
    assert!(!inv.update(1_999_999));
    assert_eq!(inv.army[0].x, 2);
    assert!(inv.update(1));
    assert_eq!(inv.army[0].x, 3);
    assert_eq!(inv.army[0].y, 2);
    assert_eq!(inv.move_timer.time_left, 2_000_000);
}

#[test]
fn swarm_descends_and_turns_at_edge() {
    let mut inv = Invaders::new();
    inv.army = vec![Invader { x: NUM_COLS - 1, y: 3 }, Invader { x: 10, y: 5 }];
    inv.move_timer.time_left = 0;
    assert!(inv.update(0));
    assert!(matches!(inv.direction, Direction::Left));
    assert_eq!((inv.army[0].x, inv.army[0].y), (NUM_COLS - 1, 4));
    assert_eq!((inv.army[1].x, inv.army[1].y), (10, 6));
    assert_eq!(inv.move_timer.duration, cadence_micros(2));
    assert!(inv.update(u64::MAX));
    assert_eq!((inv.army[0].x, inv.army[0].y), (NUM_COLS - 2, 4));
}

#[test]
fn swarm_turns_at_left_edge() {
    let mut inv = Invaders::new();
    inv.army = vec![Invader { x: 0, y: 3 }];
    inv.direction = Direction::Left;
    assert!(inv.update(u64::MAX));
    assert!(matches!(inv.direction, Direction::Right));
    assert_eq!((inv.army[0].x, inv.army[0].y), (0, 4));
}

#[test]
fn swarm_at_bottom_turns_without_descending() {
    let mut inv = Invaders::new();
    inv.army = vec![Invader { x: NUM_COLS - 1, y: NUM_ROWS - 1 }];
    assert!(inv.reached_bottom());
    assert!(!inv.update(u64::MAX));
    assert_eq!(inv.army[0].y, NUM_ROWS - 1);
    assert!(matches!(inv.direction, Direction::Left));
}

#[test]
fn smaller_swarm_moves_at_least_as_often() {
    let mut big = Invaders::new();
    let mut small = Invaders::new();
    for x in [2usize, 4, 6, 8, 10, 12] {
        assert!(small.kill_invader_at(x, 2));
    }
    let mut big_moves = 0;
    let mut small_moves = 0;
    for _ in 0..4000 {
        if big.update(10_000) {
            big_moves += 1;
        }
        if small.update(10_000) {
            small_moves += 1;
        }
    }
    assert!(small_moves >= big_moves);
    assert!(small_moves > big_moves);
}

#[test]
fn swarm_glyph_follows_timer() {
    let mut inv = Invaders::new();
    inv.army = vec![Invader { x: 1, y: 1 }];
    let mut frame = new_frame();
    inv.draw(&mut frame);
    assert_eq!(frame.cell(1, 1), INVADER_GLYPH_EARLY);
    inv.update(1_000_000);
    let mut frame = new_frame();
    inv.draw(&mut frame);
    assert_eq!(frame.cell(1, 1), INVADER_GLYPH_LATE);
}

#[test]
fn empty_swarm_is_all_killed() {
    let mut inv = Invaders::new();
    inv.army.clear();
    assert!(inv.all_killed());
    assert!(!inv.reached_bottom());
}

#[test]
fn empty_swarm_reports_no_move() {
    let mut inv = Invaders::new();
    inv.army.clear();
    assert!(!inv.update(u64::MAX));
    assert_eq!(inv.move_timer.duration, cadence_micros(0));
}
