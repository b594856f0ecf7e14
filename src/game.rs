use vstd::prelude::*;

use crate::frame::{new_frame, Drawable, Frame, BLANK};
use crate::invaders::{
    at_bottom, cadence_spec, in_formation, moves, next_direction, occupied, ordered, stepped, Direction,
    Invader, Invaders,
};
use crate::shot::Shot;
use crate::player::{hits, shots_after, Player, MAX_SHOTS};
use crate::{NUM_COLS, NUM_ROWS};

verus! {

/// A key press, as far as the game tells keys apart.
#[derive(Clone, Copy, Debug, PartialEq, Eq, Structural)]
pub enum Key {
    Char(char),
    Left,
    Right,
    Esc,
    Other,
}

/// What the player asks for.
#[derive(Clone, Copy, Debug, PartialEq, Eq, Structural)]
pub enum Intent {
    MoveLeft,
    MoveRight,
    Shoot,
    Quit,
}

/// A sound the game asks to be played.
#[derive(Clone, Copy, Debug, PartialEq, Eq, Structural)]
pub enum Cue {
    Explode,
    Lose,
    Move,
    Pew,
    Startup,
    Win,
}

/// How a game ended.
#[derive(Clone, Copy, Debug, PartialEq, Eq, Structural)]
pub enum Outcome {
    Win,
    Lose,
}

pub open spec fn intent_spec(key: Key) -> Option<Intent> {
    match key {
        Key::Char(c) => if c == 'a' {
            Some(Intent::MoveLeft)
        } else if c == 'd' {
            Some(Intent::MoveRight)
        } else if c == ' ' {
            Some(Intent::Shoot)
        } else if c == 'q' {
            Some(Intent::Quit)
        } else {
            None
        },
        Key::Left => Some(Intent::MoveLeft),
        Key::Right => Some(Intent::MoveRight),
        Key::Esc => Some(Intent::Quit),
        Key::Other => None,
    }
}

/// The intent a key stands for: `a` or the left arrow move left, `d` or the
/// right arrow move right, space shoots, `q` or escape quits; any other key
/// stands for nothing.
pub fn intent_of(key: Key) -> (r: Option<Intent>)
    ensures
        r == intent_spec(key),
{
    match key {
        Key::Char(c) => if c == 'a' {
            Some(Intent::MoveLeft)
        } else if c == 'd' {
            Some(Intent::MoveRight)
        } else if c == ' ' {
            Some(Intent::Shoot)
        } else if c == 'q' {
            Some(Intent::Quit)
        } else {
            None
        },
        Key::Left => Some(Intent::MoveLeft),
        Key::Right => Some(Intent::MoveRight),
        Key::Esc => Some(Intent::Quit),
        Key::Other => None,
    }
}

/// How a game stands after a tick: a cleared swarm wins, and is looked at
/// before a swarm that has come down to the player's row, which loses.
pub open spec fn outcome_spec(army: Seq<Invader>) -> Option<Outcome> {
    if army.len() == 0 {
        Some(Outcome::Win)
    } else if at_bottom(army) {
        Some(Outcome::Lose)
    } else {
        None
    }
}

/// The swarm's members after `delta` microseconds.
pub open spec fn army_after(invaders: Invaders, delta: u64) -> Seq<Invader> {
    if invaders.move_timer.time_left <= delta {
        stepped(invaders.army@, invaders.direction)
    } else {
        invaders.army@
    }
}

/// The cues of a tick: `Move` when the swarm moved, then `Explode` when a
/// shot hit.
pub open spec fn tick_cues(moved: bool, hit: bool) -> Seq<Cue> {
    let m: Seq<Cue> = if moved { seq![Cue::Move] } else { Seq::empty() };
    if hit { m.push(Cue::Explode) } else { m }
}

/// The whole state of a game: the player and the swarm.
pub struct Game {
    pub player: Player,
    pub invaders: Invaders,
}

impl Game {
    pub open spec fn wf(&self) -> bool {
        self.player.wf() && self.invaders.wf()
    }

    /// A game at its start: the ship in the middle of the bottom row and a
    /// full swarm.
    pub fn new() -> (g: Game)
        ensures
            g.wf(),
            g.player.x == NUM_COLS / 2,
            g.player.y == NUM_ROWS - 1,
            g.player.shots@.len() == 0,
            g.invaders.army@.len() > 0,
            forall|x: int, y: int| #[trigger] occupied(g.invaders.army@, x, y) == in_formation(x, y),
            ordered(g.invaders.army@),
            g.invaders.direction == Direction::Right,
            g.invaders.move_timer.duration == cadence_spec(g.invaders.army@.len()),
            g.invaders.move_timer.time_left == g.invaders.move_timer.duration,
    {
        let player = Player::new();
        let invaders = Invaders::new();
        proof {
            assert(occupied(invaders.army@, 2, 2));
        }
        Game { player, invaders }
    }

    /// Carries out what the player asked for. Returns the cue to play, if
    /// any, and whether the game is over: quitting plays `Lose` and ends it,
    /// a shot that is fired plays `Pew`.
    pub fn apply(&mut self, intent: Intent) -> (r: (Option<Cue>, bool))
        requires
            old(self).wf(),
        ensures
            final(self).wf(),
            final(self).invaders == old(self).invaders,
            r.1 == (intent == Intent::Quit),
            match intent {
                Intent::MoveLeft => r.0 == None::<Cue> && final(self).player.shots@ == old(self).player.shots@
                    && final(self).player.x == if old(self).player.x > 0 { old(self).player.x - 1 } else { 0int },
                Intent::MoveRight => r.0 == None::<Cue> && final(self).player.shots@ == old(self).player.shots@
                    && final(self).player.x == if old(self).player.x < NUM_COLS - 1 {
                        old(self).player.x + 1
                    } else {
                        old(self).player.x as int
                    },
                Intent::Shoot => final(self).player.x == old(self).player.x
                    && if old(self).player.shots@.len() < MAX_SHOTS {
                        r.0 == Some(Cue::Pew) && final(self).player.shots@ == old(self).player.shots@.push(
                            Shot::fresh(old(self).player.x, (old(self).player.y - 1) as usize),
                        )
                    } else {
                        r.0 == None::<Cue> && final(self).player.shots@ == old(self).player.shots@
                    },
                Intent::Quit => r.0 == Some(Cue::Lose) && final(self).player == old(self).player,
            },
    {
        match intent {
            Intent::MoveLeft => {
                self.player.move_left();
                (None, false)
            },
            Intent::MoveRight => {
                self.player.move_right();
                (None, false)
            },
            Intent::Shoot => {
                if self.player.shoot() {
                    (Some(Cue::Pew), false)
                } else {
                    (None, false)
                }
            },
            Intent::Quit => (Some(Cue::Lose), true),
        }
    }

    /// Lets `delta` microseconds pass: the shots move on, the swarm moves
    /// when its time has come, and the shots are run against the swarm.
    /// Returns the cues to play, in order.
    pub fn tick(&mut self, delta: u64) -> (cues: Vec<Cue>)
        requires
            old(self).wf(),
        ensures
            final(self).wf(),
            final(self).player.x == old(self).player.x,
            final(self).player.y == old(self).player.y,
            ({
                let due = old(self).invaders.move_timer.time_left <= delta;
                &&& final(self).invaders.direction == if due {
                    next_direction(old(self).invaders.army@, old(self).invaders.direction)
                } else {
                    old(self).invaders.direction
                }
                &&& final(self).invaders.move_timer.duration == if due {
                    cadence_spec(old(self).invaders.army@.len()) as int
                } else {
                    old(self).invaders.move_timer.duration as int
                }
                &&& final(self).invaders.move_timer.time_left == if due {
                    cadence_spec(old(self).invaders.army@.len()) as int
                } else {
                    old(self).invaders.move_timer.time_left - delta
                }
            }),
            ({
                let moved = old(self).invaders.move_timer.time_left <= delta
                    && moves(old(self).invaders.army@, old(self).invaders.direction);
                let r = hits(shots_after(old(self).player.shots@, delta), army_after(old(self).invaders, delta));
                &&& final(self).player.shots@ == r.0
                &&& final(self).invaders.army@ == r.1
                &&& cues@ == tick_cues(moved, r.2)
            }),
    {
        self.player.update(delta);
        let moved = self.invaders.update(delta);
        let hit = self.player.detect_hits(&mut self.invaders);
        let mut cues: Vec<Cue> = Vec::new();
        if moved {
            cues.push(Cue::Move);
        }
        if hit {
            cues.push(Cue::Explode);
        }
        assert(cues@ =~= tick_cues(moved, hit));
        cues
    }

    /// The frame showing the game: the player and its shots, then the swarm.
    pub fn compose(&self) -> (f: Frame)
        requires
            self.wf(),
        ensures
            f.wf(),
            f@ == self.invaders.drawn(self.player.drawn(new_blank_grid())),
    {
        let mut frame = new_frame();
        assert(frame@ =~= new_blank_grid()) by {
            assert forall|x: int| 0 <= x < NUM_COLS implies frame@[x] =~= new_blank_grid()[x] by {
                assert forall|y: int| 0 <= y < NUM_ROWS implies frame@[x][y] == BLANK by {
                    assert(crate::frame::in_bounds(x, y));
                }
            }
        }
        self.player.draw(&mut frame);
        self.invaders.draw(&mut frame);
        frame
    }

    /// Whether the game is over after a tick, and how: a cleared swarm wins,
    /// and is looked at before a swarm at the player's row, which loses.
    pub fn outcome(&self) -> (r: Option<Outcome>)
        ensures
            r == outcome_spec(self.invaders.army@),
    {
        if self.invaders.all_killed() {
            Some(Outcome::Win)
        } else if self.invaders.reached_bottom() {
            Some(Outcome::Lose)
        } else {
            None
        }
    }
}

/// Winning and losing never hold together after a tick: a swarm with no
/// members has none on the player's row, so the test for a win decides.
pub proof fn lemma_win_and_lose_exclusive(army: Seq<Invader>)
    ensures
        !(army.len() == 0 && at_bottom(army)),
        outcome_spec(army) == Some(Outcome::Win) <==> army.len() == 0,
        outcome_spec(army) == Some(Outcome::Lose) <==> (army.len() > 0 && at_bottom(army)),
{
}

/// The grid of a blank frame.
pub open spec fn new_blank_grid() -> Seq<Seq<char>> {
    Seq::new(NUM_COLS as nat, |x: int| Seq::new(NUM_ROWS as nat, |y: int| BLANK))
}

/// The cue that goes with how a game ended.
pub fn outcome_cue(o: Outcome) -> (c: Cue)
    ensures
        c == match o {
            Outcome::Win => Cue::Win,
            Outcome::Lose => Cue::Lose,
        },
{
    match o {
        Outcome::Win => Cue::Win,
        Outcome::Lose => Cue::Lose,
    }
}

} // verus!
