use invadors::frame::{new_frame, Drawable};
use invadors::invaders::{Invader, Invaders};
use invadors::player::{Player, MAX_SHOTS, PLAYER_GLYPH};
use invadors::shot::{Shot, EXPLOSION_GLYPH, SHOT_GLYPH, SHOT_STEP_MICROS};
use invadors::{NUM_COLS, NUM_ROWS};

#[test]
fn player_starts_centered_on_bottom_row() {
    let p = Player::new();
    assert_eq!(p.x, NUM_COLS / 2);
    assert_eq!(p.y, NUM_ROWS - 1);
    assert!(p.shots.is_empty());
}

#[test]
fn player_column_stays_in_field() {
    let mut p = Player::new();
    for _ in 0..100 {
        p.move_left();
        assert!(p.x < NUM_COLS);
    }
    assert_eq!(p.x, 0);
    p.move_left();
    assert_eq!(p.x, 0);
    for _ in 0..100 {
        p.move_right();
        assert!(p.x < NUM_COLS);
    }
    assert_eq!(p.x, NUM_COLS - 1);
    p.move_right();
    assert_eq!(p.x, NUM_COLS - 1);
    p.move_left();
    assert_eq!(p.x, NUM_COLS - 2);
}

#[test]
fn fifth_shot_is_refused() {
    let mut p = Player::new();
    for _ in 0..MAX_SHOTS {
        assert!(p.shoot());
    }
    assert_eq!(p.shots.len(), 4);
    assert!(!p.shoot());
    assert_eq!(p.shots.len(), 4);
}

#[test]
fn shot_spawns_above_player() {
    let mut p = Player::new();
    p.move_left();
    assert!(p.shoot());
    let s = &p.shots[0];
    assert_eq!(s.x, NUM_COLS / 2 - 1);
    assert_eq!(s.y, NUM_ROWS - 2);
    assert!(!s.exploding);
}

#[test]
fn missed_shot_is_pruned_on_reaching_top() {
    let mut p = Player::new();
    assert!(p.shoot());
    for _ in 0..(NUM_ROWS - 3) {
        p.update(SHOT_STEP_MICROS);
    }
    assert_eq!(p.shots.len(), 1);
    assert_eq!(p.shots[0].y, 1);
    p.update(SHOT_STEP_MICROS);
    assert!(p.shots.is_empty());
}

#[test]
fn shot_climbs_only_when_step_elapsed() {
    let mut p = Player::new();
    assert!(p.shoot());
    p.update(SHOT_STEP_MICROS - 1);
    assert_eq!(p.shots[0].y, NUM_ROWS - 2);
    p.update(1);
    assert_eq!(p.shots[0].y, NUM_ROWS - 3);
}

fn one_invader_at(x: usize, y: usize) -> Invaders {
    let mut inv = Invaders::new();
    inv.army = vec![Invader { x, y }];
    inv
}

#[test]
fn hit_shot_explodes_and_stays_visible() {
    let mut p = Player::new();
    p.shots.push(Shot::new(5, 5));
    let mut inv = one_invader_at(5, 5);
    assert!(p.detect_hits(&mut inv));
    assert!(inv.army.is_empty());
    assert!(p.shots[0].exploding);
    let mut frame = new_frame();
    p.draw(&mut frame);
    assert_eq!(frame.cell(5, 5), EXPLOSION_GLYPH);
    assert_eq!(frame.cell(p.x, p.y), PLAYER_GLYPH);
    p.update(100_000);
    assert_eq!(p.shots.len(), 1);
    assert_eq!(p.shots[0].y, 5);
    p.update(150_000);
    assert_eq!(p.shots.len(), 1);
    assert_eq!(p.shots[0].age, 250_000);
    p.update(1);
    assert!(p.shots.is_empty());
}

#[test]
fn exploding_shot_never_hits_again() {
    let mut p = Player::new();
    p.shots.push(Shot::new(5, 5));
    let mut inv = one_invader_at(5, 5);
    assert!(p.detect_hits(&mut inv));
    inv.army.push(Invader { x: 5, y: 5 });
    assert!(!p.detect_hits(&mut inv));
    assert_eq!(inv.army.len(), 1);
}

#[test]
fn two_shots_on_one_invader_kill_once() {
    let mut p = Player::new();
    p.shots.push(Shot::new(5, 5));
    p.shots.push(Shot::new(5, 5));
    let mut inv = one_invader_at(5, 5);
    assert!(p.detect_hits(&mut inv));
    assert!(p.shots[0].exploding);
    assert!(!p.shots[1].exploding);
}

#[test]
fn miss_leaves_swarm_alone() {
    let mut p = Player::new();
    p.shots.push(Shot::new(6, 5));
    let mut inv = one_invader_at(5, 5);
    assert!(!p.detect_hits(&mut inv));
    assert_eq!(inv.army.len(), 1);
    assert!(!p.shots[0].exploding);
}

#[test]
fn player_draws_ship_and_shots() {
    let mut p = Player::new();
    assert!(p.shoot());
    let mut frame = new_frame();
    p.draw(&mut frame);
    assert_eq!(frame.cell(NUM_COLS / 2, NUM_ROWS - 1), 'A');
    assert_eq!(frame.cell(NUM_COLS / 2, NUM_ROWS - 2), SHOT_GLYPH);
    assert_eq!(frame.cell(0, 0), ' ');
}

#[test]
fn exploding_shot_on_top_row_lasts_its_explosion() {
    let mut p = Player::new();
    let mut s = Shot::new(5, 0);
    s.explode();
    assert!(!s.dead());
    p.shots.push(s);
    p.update(0);
    assert_eq!(p.shots.len(), 1);
    p.update(250_000);
    assert_eq!(p.shots.len(), 1);
    p.update(1);
    assert!(p.shots.is_empty());
}
