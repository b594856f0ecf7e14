use invadors::game::{intent_of, outcome_cue, Cue, Game, Intent, Key, Outcome};
use invadors::invaders::Invader;
use invadors::shot::{Shot, SHOT_STEP_MICROS};
use invadors::{NUM_COLS, NUM_ROWS};

#[test]
fn key_bindings() {
    assert_eq!(intent_of(Key::Char('a')), Some(Intent::MoveLeft));
    assert_eq!(intent_of(Key::Left), Some(Intent::MoveLeft));
    assert_eq!(intent_of(Key::Char('d')), Some(Intent::MoveRight));
    assert_eq!(intent_of(Key::Right), Some(Intent::MoveRight));
    assert_eq!(intent_of(Key::Char(' ')), Some(Intent::Shoot));
    assert_eq!(intent_of(Key::Esc), Some(Intent::Quit));
    assert_eq!(intent_of(Key::Char('q')), Some(Intent::Quit));
    assert_eq!(intent_of(Key::Char('x')), None);
    assert_eq!(intent_of(Key::Other), None);
}

#[test]
fn intents_play_cues() {
    let mut g = Game::new();
    assert_eq!(g.apply(Intent::MoveLeft), (None, false));
    assert_eq!(g.player.x, NUM_COLS / 2 - 1);
    assert_eq!(g.apply(Intent::MoveRight), (None, false));
    assert_eq!(g.player.x, NUM_COLS / 2);
    for _ in 0..4 {
        assert_eq!(g.apply(Intent::Shoot), (Some(Cue::Pew), false));
    }
    assert_eq!(g.apply(Intent::Shoot), (None, false));
    assert_eq!(g.apply(Intent::Quit), (Some(Cue::Lose), true));
}

#[test]
fn win_comes_before_lose() {
    let mut g = Game::new();
    assert_eq!(g.outcome(), None);
    g.invaders.army = vec![Invader { x: 3, y: NUM_ROWS - 1 }];
    assert_eq!(g.outcome(), Some(Outcome::Lose));
    g.invaders.army.clear();
    assert_eq!(g.outcome(), Some(Outcome::Win));
    assert_eq!(outcome_cue(Outcome::Win), Cue::Win);
    assert_eq!(outcome_cue(Outcome::Lose), Cue::Lose);
}

#[test]
fn scenario_swarm_reaches_bottom_without_input() {
    let mut g = Game::new();
    let mut lose_cues = 0;
    let mut ticks = 0;
    loop {
        ticks += 1;
        assert!(ticks < 10_000);
        let cues = g.tick(1_000_000);
        assert!(!cues.contains(&Cue::Lose));
        let _frame = g.compose();
        if let Some(o) = g.outcome() {
            let cue = outcome_cue(o);
            if cue == Cue::Lose {
                lose_cues += 1;
            }
            assert_eq!(o, Outcome::Lose);
            break;
        }
    }
    assert_eq!(lose_cues, 1);
    assert!(g.invaders.reached_bottom());
    assert!(!g.invaders.all_killed());
}

#[test]
fn scenario_shot_hits_live_invader() {
    let mut g = Game::new();
    assert_eq!(g.apply(Intent::Shoot), (Some(Cue::Pew), false));
    let before = g.invaders.army.len();
    let mut explode_cues = 0;
    for _ in 0..(NUM_ROWS - 2 - 8) {
        let cues = g.tick(SHOT_STEP_MICROS);
        explode_cues += cues.iter().filter(|c| **c == Cue::Explode).count();
    }
    assert_eq!(explode_cues, 1);
    assert_eq!(g.invaders.army.len(), before - 1);
    assert!(!g.invaders.kill_invader_at(NUM_COLS / 2, 8));
    assert!(g.player.shots[0].exploding);
}

#[test]
fn scenario_direct_hit_through_detect_hits() {
    let mut g = Game::new();
    g.player.shots.push(Shot::new(20, 8));
    let before = g.invaders.army.len();
    assert!(g.player.detect_hits(&mut g.invaders));
    assert_eq!(g.invaders.army.len(), before - 1);
}

#[test]
fn scenario_all_invaders_killed_wins() {
    let mut g = Game::new();
    let targets: Vec<(usize, usize)> = g.invaders.army.iter().map(|i| (i.x, i.y)).collect();
    for chunk in targets.chunks(4) {
        g.player.shots.clear();
        for &(x, y) in chunk {
            g.player.shots.push(Shot::new(x, y));
        }
        assert!(g.player.detect_hits(&mut g.invaders));
    }
    assert!(g.invaders.all_killed());
    let o = g.outcome();
    assert_eq!(o, Some(Outcome::Win));
    assert_eq!(outcome_cue(o.unwrap()), Cue::Win);
}

#[test]
fn tick_cues_in_order() {
    let mut g = Game::new();
    g.invaders.army = vec![Invader { x: 10, y: 10 }];
    g.player.shots.push(Shot::new(11, 11));
    let cues = g.tick(u64::MAX);
    assert_eq!(cues, vec![Cue::Move, Cue::Explode]);
    assert!(g.invaders.army.is_empty());
    let cues = g.tick(1);
    assert!(cues.is_empty());
}

#[test]
fn compose_draws_player_then_swarm() {
    let g = Game::new();
    let f = g.compose();
    assert_eq!(f.cell(NUM_COLS / 2, NUM_ROWS - 1), 'A');
    assert_eq!(f.cell(2, 2), 'x');
    assert_eq!(f.cell(3, 2), ' ');
    assert_eq!(f.cell(0, 0), ' ');
}
