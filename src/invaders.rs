use vstd::prelude::*;

use crate::frame::{in_bounds, paint, Drawable, Frame};
use crate::timer::Timer;
use crate::{NUM_COLS, NUM_ROWS};

verus! {

/// Shortest time between two moves of the swarm, in microseconds.
pub const MIN_CADENCE_MICROS: u64 = 200_000;

/// What each live invader adds to the time between two moves, in microseconds.
pub const CADENCE_STEP_MICROS: u64 = 25_000;

/// Glyph of an invader during the first half of the wait for the next move.
pub const INVADER_GLYPH_EARLY: char = 'x';

/// Glyph of an invader during the second half of the wait for the next move.
pub const INVADER_GLYPH_LATE: char = '+';

/// One member of the swarm.
#[derive(Clone, Copy)]
pub struct Invader {
    pub x: usize,
    pub y: usize,
}

/// The way the swarm is heading.
#[derive(Clone, Copy)]
pub enum Direction {
    Left,
    Right,
}

/// The swarm of invaders: its live members, the timer that paces its moves
/// and the way it is heading.
pub struct Invaders {
    pub army: Vec<Invader>,
    pub move_timer: Timer,
    pub direction: Direction,
}

/// Time between two moves of a swarm of `n` invaders: the fewer they are,
/// the faster they move.
pub open spec fn cadence_spec(n: nat) -> nat {
    (MIN_CADENCE_MICROS + CADENCE_STEP_MICROS * n) as nat
}

/// Whether some invader of `army` stands at `(x, y)`.
pub open spec fn occupied(army: Seq<Invader>, x: int, y: int) -> bool {
    exists|i: int| 0 <= i < army.len() && army[i].x == x && #[trigger] army[i].y == y
}

/// Whether no two invaders of `army` share a cell.
pub open spec fn distinct(army: Seq<Invader>) -> bool {
    forall|i: int, j: int|
        0 <= i < army.len() && 0 <= j < army.len() && i != j ==> !(army[i].x == army[j].x
            && army[i].y == army[j].y)
}

/// Whether every invader of `army` stands inside the field.
pub open spec fn all_in_bounds(army: Seq<Invader>) -> bool {
    forall|i: int| 0 <= i < army.len() ==> in_bounds(#[trigger] army[i].x as int, army[i].y as int)
}

/// Whether `(x, y)` is a cell of the swarm's starting formation.
pub open spec fn in_formation(x: int, y: int) -> bool {
    &&& 1 < x < NUM_COLS - 2
    &&& 0 < y < 9
    &&& x % 2 == 0
    &&& y % 2 == 0
}

/// Whether some invader stands on the player's row or below.
pub open spec fn at_bottom(army: Seq<Invader>) -> bool {
    exists|i: int| 0 <= i < army.len() && #[trigger] army[i].y >= NUM_ROWS - 1
}

/// Whether some invader stands on the edge of the field that `dir` heads for.
pub open spec fn at_edge(army: Seq<Invader>, dir: Direction) -> bool {
    exists|i: int|
        0 <= i < army.len() && match dir {
            Direction::Left => #[trigger] army[i].x == 0,
            Direction::Right => army[i].x == NUM_COLS - 1,
        }
}

pub open spec fn opposite(dir: Direction) -> Direction {
    match dir {
        Direction::Left => Direction::Right,
        Direction::Right => Direction::Left,
    }
}

/// `army` after one move in `dir`: one column sideways, or, where it stands
/// at the edge that `dir` heads for, one row down (none once it is at the
/// bottom).
pub open spec fn stepped(army: Seq<Invader>, dir: Direction) -> Seq<Invader> {
    if at_edge(army, dir) {
        if at_bottom(army) {
            army
        } else {
            army.map_values(|inv: Invader| Invader { x: inv.x, y: (inv.y + 1) as usize })
        }
    } else {
        match dir {
            Direction::Left => army.map_values(|inv: Invader| Invader { x: (inv.x - 1) as usize, y: inv.y }),
            Direction::Right => army.map_values(|inv: Invader| Invader { x: (inv.x + 1) as usize, y: inv.y }),
        }
    }
}

/// Whether a step in `dir` changes the place of some invader of `army`: it
/// does unless the swarm is empty, or stands at the bottom and at the edge
/// it heads for, where it only turns about.
pub open spec fn moves(army: Seq<Invader>, dir: Direction) -> bool {
    army.len() > 0 && !(at_edge(army, dir) && at_bottom(army))
}

/// The heading after one move in `dir`: reversed at an edge.
pub open spec fn next_direction(army: Seq<Invader>, dir: Direction) -> Direction {
    if at_edge(army, dir) {
        opposite(dir)
    } else {
        dir
    }
}

/// Whether index `i` holds the first invader of `army` at `(x, y)`.
pub open spec fn first_at(army: Seq<Invader>, x: int, y: int, i: int) -> bool {
    &&& 0 <= i < army.len()
    &&& army[i].x == x
    &&& army[i].y == y
    &&& forall|k: int| 0 <= k < i ==> !(army[k].x == x && #[trigger] army[k].y == y)
}

/// `army` without its first invader at `(x, y)`, if it has one.
pub open spec fn killed(army: Seq<Invader>, x: int, y: int) -> Seq<Invader> {
    if occupied(army, x, y) {
        army.remove(choose|i: int| first_at(army, x, y, i))
    } else {
        army
    }
}

/// `before` with each invader of `army` painted in turn with glyph `c`.
pub open spec fn army_drawn(before: Seq<Seq<char>>, army: Seq<Invader>, c: char) -> Seq<Seq<char>>
    decreases army.len(),
{
    if army.len() == 0 {
        before
    } else {
        let last = army.last();
        paint(army_drawn(before, army.drop_last(), c), last.x as int, last.y as int, c)
    }
}

/// The first invader at a cell is the one that `killed` removes.
pub proof fn lemma_first_at_unique(army: Seq<Invader>, x: int, y: int, i: int)
    requires
        first_at(army, x, y, i),
    ensures
        occupied(army, x, y),
        killed(army, x, y) == army.remove(i),
{
    assert(army[i].y == y);
    let j = choose|j: int| first_at(army, x, y, j);
    assert(first_at(army, x, y, j));
    if j < i {
        assert(!(army[j].x == x && army[j].y == y));
    } else if i < j {
        assert(!(army[i].x == x && army[i].y == y));
    }
}

/// Removing an invader keeps the others apart and inside the field.
proof fn lemma_remove_keeps_distinct(army: Seq<Invader>, i: int)
    requires
        0 <= i < army.len(),
        distinct(army),
        all_in_bounds(army),
    ensures
        distinct(army.remove(i)),
        all_in_bounds(army.remove(i)),
{
    let after = army.remove(i);
    lemma_remove_keeps_distinct_only(army, i);
    assert forall|a: int| 0 <= a < after.len() implies in_bounds(#[trigger] after[a].x as int, after[a].y as int) by {
        let a0 = if a < i { a } else { a + 1 };
        assert(after[a] == army[a0]);
    }
}

/// Whether cell `(a, b)` comes before cell `(c, d)`, column by column.
pub open spec fn cell_before(a: int, b: int, c: int, d: int) -> bool {
    a < c || (a == c && b < d)
}

/// Whether each invader of `army` comes before the next, column by column.
pub open spec fn ordered(army: Seq<Invader>) -> bool {
    forall|i: int, j: int|
        0 <= i < j < army.len() ==> cell_before(
            #[trigger] army[i].x as int,
            army[i].y as int,
            #[trigger] army[j].x as int,
            army[j].y as int,
        )
}

proof fn lemma_occupied_push(army: Seq<Invader>, inv: Invader, x: int, y: int)
    ensures
        occupied(army.push(inv), x, y) == (occupied(army, x, y) || (inv.x == x && inv.y == y)),
{
    let after = army.push(inv);
    if occupied(army, x, y) {
        let i = choose|i: int| 0 <= i < army.len() && army[i].x == x && #[trigger] army[i].y == y;
        assert(after[i] == army[i]);
    }
    if inv.x == x && inv.y == y {
        assert(after[army.len() as int] == inv);
    }
    if occupied(after, x, y) {
        let i = choose|i: int| 0 <= i < after.len() && after[i].x == x && #[trigger] after[i].y == y;
        if i < army.len() {
            assert(army[i] == after[i]);
        }
    }
}

/// Killing at a cell removes at most one invader, the one at that cell, and
/// leaves that cell empty, so that a second kill there finds nothing.
pub proof fn lemma_kill_removes_only_target(army: Seq<Invader>, x: int, y: int)
    requires
        distinct(army),
    ensures
        killed(army, x, y).len() == if occupied(army, x, y) { army.len() - 1 } else { army.len() as int },
        forall|px: int, py: int|
            #[trigger] occupied(killed(army, x, y), px, py) == (occupied(army, px, py) && !(px == x
                && py == y)),
        !occupied(killed(army, x, y), x, y),
{
    if occupied(army, x, y) {
        let w = choose|i: int| 0 <= i < army.len() && army[i].x == x && #[trigger] army[i].y == y;
        let i = first_index_at(army, x, y, w);
        lemma_first_at_unique(army, x, y, i);
        let after = army.remove(i);
        assert forall|px: int, py: int|
            #[trigger] occupied(after, px, py) == (occupied(army, px, py) && !(px == x && py == y)) by {
            if occupied(after, px, py) {
                let a = choose|a: int| 0 <= a < after.len() && after[a].x == px && #[trigger] after[a].y == py;
                let a0 = if a < i { a } else { a + 1 };
                assert(after[a] == army[a0]);
                assert(a0 != i);
            }
            if occupied(army, px, py) && !(px == x && py == y) {
                let b = choose|b: int| 0 <= b < army.len() && army[b].x == px && #[trigger] army[b].y == py;
                assert(b != i);
                let b1 = if b < i { b } else { b - 1 };
                assert(after[b1] == army[b]);
            }
        }
    }
}

/// An occupied cell has a first invader on it.
pub proof fn lemma_first_at_exists(army: Seq<Invader>, x: int, y: int)
    requires
        occupied(army, x, y),
    ensures
        exists|i: int| first_at(army, x, y, i),
{
    let w = choose|i: int| 0 <= i < army.len() && army[i].x == x && #[trigger] army[i].y == y;
    let i = first_index_at(army, x, y, w);
    assert(first_at(army, x, y, i));
}

/// Removing an invader keeps the others on distinct cells.
pub proof fn lemma_remove_keeps_distinct_only(army: Seq<Invader>, i: int)
    requires
        0 <= i < army.len(),
        distinct(army),
    ensures
        distinct(army.remove(i)),
{
    let after = army.remove(i);
    assert forall|a: int, b: int|
        0 <= a < after.len() && 0 <= b < after.len() && a != b implies !(
        #[trigger] after[a].x == #[trigger] after[b].x && after[a].y == after[b].y) by {
        let a0 = if a < i { a } else { a + 1 };
        let b0 = if b < i { b } else { b + 1 };
        assert(after[a] == army[a0]);
        assert(after[b] == army[b0]);
    }
}

/// The index of the first invader at `(x, y)`, given that `w` holds one.
proof fn first_index_at(army: Seq<Invader>, x: int, y: int, w: int) -> (i: int)
    requires
        0 <= w < army.len(),
        army[w].x == x,
        army[w].y == y,
    ensures
        first_at(army, x, y, i),
    decreases w,
{
    if exists|k: int| 0 <= k < w && army[k].x == x && #[trigger] army[k].y == y {
        let k = choose|k: int| 0 <= k < w && army[k].x == x && #[trigger] army[k].y == y;
        first_index_at(army, x, y, k)
    } else {
        w
    }
}

impl Invaders {
    /// A full swarm in its starting formation, heading right.
    pub fn new() -> (s: Invaders)
        ensures
            s.wf(),
            forall|x: int, y: int| #[trigger] occupied(s.army@, x, y) == in_formation(x, y),
            ordered(s.army@),
            s.direction == Direction::Right,
            s.move_timer.duration == cadence_spec(s.army@.len()),
            s.move_timer.time_left == s.move_timer.duration,
    {
        let mut army: Vec<Invader> = Vec::new();
        let mut x: usize = 0;
        while x < NUM_COLS
            invariant
                x <= NUM_COLS,
                army.len() <= x * NUM_ROWS,
                all_in_bounds(army@),
                ordered(army@),
                forall|i: int| 0 <= i < army.len() ==> (#[trigger] army@[i]).x < x,
                forall|px: int, py: int|
                    #[trigger] occupied(army@, px, py) == (in_formation(px, py) && px < x),
            decreases NUM_COLS - x,
        {
            let mut y: usize = 0;
            while y < NUM_ROWS
                invariant
                    x < NUM_COLS,
                    y <= NUM_ROWS,
                    army.len() <= x * NUM_ROWS + y,
                    all_in_bounds(army@),
                    ordered(army@),
                    forall|i: int|
                        0 <= i < army.len() ==> cell_before(
                            (#[trigger] army@[i]).x as int,
                            army@[i].y as int,
                            x as int,
                            y as int,
                        ),
                    forall|px: int, py: int|
                        #[trigger] occupied(army@, px, py) == (in_formation(px, py) && cell_before(
                            px,
                            py,
                            x as int,
                            y as int,
                        )),
                decreases NUM_ROWS - y,
            {
                if x > 1 && x < NUM_COLS - 2 && y > 0 && y < 9 && x % 2 == 0 && y % 2 == 0 {
                    let ghost before = army@;
                    army.push(Invader { x, y });
                    proof {
                        assert forall|px: int, py: int|
                            #[trigger] occupied(army@, px, py) == (in_formation(px, py)
                                && cell_before(px, py, x as int, y + 1)) by {
                            lemma_occupied_push(before, Invader { x, y }, px, py);
                        }
                        assert(army@[army.len() - 1] == Invader { x, y });
                    }
                } else {
                    proof {
                        assert forall|px: int, py: int|
                            #[trigger] occupied(army@, px, py) == (in_formation(px, py)
                                && cell_before(px, py, x as int, y + 1)) by {
                            if occupied(army@, px, py) {
                                assert(cell_before(px, py, x as int, y as int));
                            }
                        }
                    }
                }
                y = y + 1;
            }
            proof {
                assert forall|px: int, py: int|
                    #[trigger] occupied(army@, px, py) == (in_formation(px, py) && px < x + 1) by {
                    if in_formation(px, py) && px == x {
                        assert(py < NUM_ROWS);
                    }
                }
            }
            x = x + 1;
        }
        proof {
            assert forall|i: int, j: int|
                0 <= i < army.len() && 0 <= j < army.len() && i != j implies !(
                #[trigger] army@[i].x == #[trigger] army@[j].x && army@[i].y == army@[j].y) by {
                if i < j {
                    assert(cell_before(army@[i].x as int, army@[i].y as int, army@[j].x as int, army@[j].y as int));
                } else {
                    assert(cell_before(army@[j].x as int, army@[j].y as int, army@[i].x as int, army@[i].y as int));
                }
            }
        }
        let n = army.len();
        Invaders { army, move_timer: Timer::from_micros(cadence_micros(n)), direction: Direction::Right }
    }

    /// Whether no invader is left: the player has won.
    pub fn all_killed(&self) -> (r: bool)
        ensures
            r == (self.army@.len() == 0),
    {
        self.army.len() == 0
    }

    /// Whether some invader has come down to the player's row: the player has
    /// lost.
    pub fn reached_bottom(&self) -> (r: bool)
        ensures
            r == at_bottom(self.army@),
    {
        let mut i: usize = 0;
        while i < self.army.len()
            invariant
                i <= self.army.len(),
                forall|k: int| 0 <= k < i ==> #[trigger] self.army@[k].y < NUM_ROWS - 1,
            decreases self.army.len() - i,
        {
            if self.army[i].y >= NUM_ROWS - 1 {
                return true;
            }
            i = i + 1;
        }
        false
    }

    /// Whether some invader stands on the edge that the swarm heads for.
    fn at_leading_edge(&self) -> (r: bool)
        ensures
            r == at_edge(self.army@, self.direction),
    {
        let mut i: usize = 0;
        while i < self.army.len()
            invariant
                i <= self.army.len(),
                forall|k: int|
                    0 <= k < i ==> match self.direction {
                        Direction::Left => #[trigger] self.army@[k].x != 0,
                        Direction::Right => self.army@[k].x != NUM_COLS - 1,
                    },
            decreases self.army.len() - i,
        {
            let edge = match self.direction {
                Direction::Left => self.army[i].x == 0,
                Direction::Right => self.army[i].x == NUM_COLS - 1,
            };
            if edge {
                return true;
            }
            i = i + 1;
        }
        false
    }

    /// Moves every invader one row down.
    fn descend(&mut self)
        requires
            old(self).wf(),
            !at_bottom(old(self).army@),
        ensures
            final(self).wf(),
            final(self).army@ == old(self).army@.map_values(
                |inv: Invader| Invader { x: inv.x, y: (inv.y + 1) as usize },
            ),
            final(self).move_timer == old(self).move_timer,
            final(self).direction == old(self).direction,
    {
        let ghost before = self.army@;
        let mut i: usize = 0;
        while i < self.army.len()
            invariant
                i <= self.army.len(),
                self.army.len() == before.len(),
                before == old(self).army@,
                old(self).wf(),
                self.move_timer == old(self).move_timer,
                self.direction == old(self).direction,
                forall|k: int| 0 <= k < before.len() ==> #[trigger] before[k].y < NUM_ROWS - 1,
                forall|k: int|
                    0 <= k < self.army.len() ==> #[trigger] self.army@[k] == if k < i {
                        Invader { x: before[k].x, y: (before[k].y + 1) as usize }
                    } else {
                        before[k]
                    },
            decreases self.army.len() - i,
        {
            let inv = self.army[i];
            self.army.set(i, Invader { x: inv.x, y: inv.y + 1 });
            i = i + 1;
        }
        assert(self.army@ =~= before.map_values(
            |inv: Invader| Invader { x: inv.x, y: (inv.y + 1) as usize },
        ));
        assert(distinct(self.army@)) by {
            assert forall|i: int, j: int|
                0 <= i < self.army.len() && 0 <= j < self.army.len() && i != j implies !(
                #[trigger] self.army@[i].x == #[trigger] self.army@[j].x && self.army@[i].y
                    == self.army@[j].y) by {
                assert(!(before[i].x == before[j].x && before[i].y == before[j].y));
            }
        }
    }

    /// Moves every invader one column in the swarm's direction.
    fn advance(&mut self)
        requires
            old(self).wf(),
            !at_edge(old(self).army@, old(self).direction),
        ensures
            final(self).wf(),
            final(self).army@ == stepped(old(self).army@, old(self).direction),
            final(self).move_timer == old(self).move_timer,
            final(self).direction == old(self).direction,
    {
        let ghost before = self.army@;
        let right = match self.direction {
            Direction::Left => false,
            Direction::Right => true,
        };
        let mut i: usize = 0;
        while i < self.army.len()
            invariant
                i <= self.army.len(),
                self.army.len() == before.len(),
                before == old(self).army@,
                old(self).wf(),
                self.move_timer == old(self).move_timer,
                self.direction == old(self).direction,
                right == (self.direction == Direction::Right),
                forall|k: int| 0 <= k < before.len() ==> in_bounds(#[trigger] before[k].x as int, before[k].y as int),
                forall|k: int|
                    0 <= k < before.len() ==> if right {
                        #[trigger] before[k].x != NUM_COLS - 1
                    } else {
                        before[k].x != 0
                    },
                forall|k: int|
                    0 <= k < self.army.len() ==> #[trigger] self.army@[k] == if k < i {
                        Invader {
                            x: if right { (before[k].x + 1) as usize } else { (before[k].x - 1) as usize },
                            y: before[k].y,
                        }
                    } else {
                        before[k]
                    },
            decreases self.army.len() - i,
        {
            let inv = self.army[i];
            let x = if right { inv.x + 1 } else { inv.x - 1 };
            self.army.set(i, Invader { x, y: inv.y });
            i = i + 1;
        }
        assert(distinct(self.army@)) by {
            assert forall|i: int, j: int|
                0 <= i < self.army.len() && 0 <= j < self.army.len() && i != j implies !(
                #[trigger] self.army@[i].x == #[trigger] self.army@[j].x && self.army@[i].y
                    == self.army@[j].y) by {
                assert(!(before[i].x == before[j].x && before[i].y == before[j].y));
            }
        }
        match self.direction {
            Direction::Left => {
                assert(self.army@ =~= before.map_values(
                    |inv: Invader| Invader { x: (inv.x - 1) as usize, y: inv.y },
                ));
            }
            Direction::Right => {
                assert(self.army@ =~= before.map_values(
                    |inv: Invader| Invader { x: (inv.x + 1) as usize, y: inv.y },
                ));
            }
        }
    }

    /// Lets `delta` microseconds pass. When the wait for the next move is
    /// over, the swarm steps (sideways, or down and about at an edge) and
    /// waits anew for as long as its current size calls for. Returns whether
    /// some invader changed place.
    pub fn update(&mut self, delta: u64) -> (moved: bool)
        requires
            old(self).wf(),
        ensures
            final(self).wf(),
            ({
                let due = old(self).move_timer.time_left <= delta;
                &&& moved == (due && moves(old(self).army@, old(self).direction))
                &&& !due ==> final(self).army@ == old(self).army@
                    && final(self).direction == old(self).direction
                    && final(self).move_timer.duration == old(self).move_timer.duration
                    && final(self).move_timer.time_left == old(self).move_timer.time_left - delta
                &&& due ==> final(self).army@ == stepped(old(self).army@, old(self).direction)
                    && final(self).direction == next_direction(old(self).army@, old(self).direction)
                    && final(self).move_timer.duration == cadence_spec(old(self).army@.len())
                    && final(self).move_timer.time_left == final(self).move_timer.duration
            }),
    {
        self.move_timer.update(delta);
        if !self.move_timer.ready() {
            return false;
        }
        let mut moved = self.army.len() > 0;
        if self.at_leading_edge() {
            if self.reached_bottom() {
                moved = false;
            } else {
                self.descend();
            }
            self.direction = match self.direction {
                Direction::Left => Direction::Right,
                Direction::Right => Direction::Left,
            };
        } else {
            self.advance();
        }
        self.move_timer = Timer::from_micros(cadence_micros(self.army.len()));
        moved
    }

    /// Removes the invader at column `x`, row `y`, if there is one. Returns
    /// whether one was removed.
    pub fn kill_invader_at(&mut self, x: usize, y: usize) -> (r: bool)
        requires
            old(self).wf(),
        ensures
            final(self).wf(),
            r == occupied(old(self).army@, x as int, y as int),
            final(self).army@ == killed(old(self).army@, x as int, y as int),
            final(self).move_timer == old(self).move_timer,
            final(self).direction == old(self).direction,
    {
        let mut i: usize = 0;
        while i < self.army.len()
            invariant
                i <= self.army.len(),
                *self == *old(self),
                old(self).wf(),
                forall|k: int| 0 <= k < i ==> !(self.army@[k].x == x && #[trigger] self.army@[k].y == y),
            decreases self.army.len() - i,
        {
            if self.army[i].x == x && self.army[i].y == y {
                proof {
                    lemma_first_at_unique(self.army@, x as int, y as int, i as int);
                }
                let ghost before = self.army@;
                self.army.remove(i);
                proof {
                    lemma_remove_keeps_distinct(before, i as int);
                }
                return true;
            }
            i = i + 1;
        }
        proof {
            assert(!occupied(self.army@, x as int, y as int));
        }
        false
    }

    pub open spec fn wf(&self) -> bool {
        &&& self.army.len() <= NUM_COLS * NUM_ROWS
        &&& all_in_bounds(self.army@)
        &&& distinct(self.army@)
        &&& self.move_timer.wf()
    }

    pub open spec fn glyph(&self) -> char {
        if 2 * self.move_timer.time_left > self.move_timer.duration {
            INVADER_GLYPH_EARLY
        } else {
            INVADER_GLYPH_LATE
        }
    }
}

/// Time between two moves of a swarm of `n` invaders.
pub fn cadence_micros(n: usize) -> (r: u64)
    requires
        n <= NUM_COLS * NUM_ROWS,
    ensures
        r == cadence_spec(n as nat),
{
    MIN_CADENCE_MICROS + CADENCE_STEP_MICROS * (n as u64)
}

/// Swarms move at least as fast the fewer their members: strictly faster
/// for each invader fewer.
pub proof fn lemma_cadence_grows_with_count(smaller: nat, larger: nat)
    requires
        smaller < larger,
    ensures
        cadence_spec(smaller) < cadence_spec(larger),
{
}

impl Drawable for Invaders {
    open spec fn draw_ready(&self) -> bool {
        self.wf()
    }

    open spec fn drawn(&self, before: Seq<Seq<char>>) -> Seq<Seq<char>> {
        army_drawn(before, self.army@, self.glyph())
    }

    fn draw(&self, frame: &mut Frame) {
        let glyph = if self.move_timer.time_left > self.move_timer.duration - self.move_timer.time_left {
            INVADER_GLYPH_EARLY
        } else {
            INVADER_GLYPH_LATE
        };
        let mut i: usize = 0;
        while i < self.army.len()
            invariant
                i <= self.army.len(),
                self.wf(),
                glyph == self.glyph(),
                frame.wf(),
                frame@ == army_drawn(old(frame)@, self.army@.take(i as int), glyph),
            decreases self.army.len() - i,
        {
            let inv = self.army[i];
            frame.set(inv.x, inv.y, glyph);
            assert(self.army@.take(i + 1).drop_last() =~= self.army@.take(i as int));
            i = i + 1;
        }
        assert(self.army@.take(i as int) =~= self.army@);
    }
}

/// Of two swarms that have just started to wait for their next move, the
/// smaller one is due whenever the larger one is: it moves at least as often.
pub proof fn lemma_smaller_swarm_due_first(small: Invaders, large: Invaders, delta: u64)
    requires
        small.army@.len() < large.army@.len(),
        small.move_timer.time_left == cadence_spec(small.army@.len()),
        large.move_timer.time_left == cadence_spec(large.army@.len()),
        large.move_timer.time_left <= delta,
    ensures
        small.move_timer.time_left < large.move_timer.time_left,
        small.move_timer.time_left <= delta,
{
    lemma_cadence_grows_with_count(small.army@.len(), large.army@.len());
}

} // verus!
