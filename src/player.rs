use vstd::prelude::*;

use crate::frame::{grid_wf, paint, Drawable, Frame};
use crate::invaders::{
    at_bottom, cadence_spec, distinct, first_at, killed, lemma_cadence_grows_with_count,
    lemma_first_at_exists, lemma_first_at_unique, lemma_kill_removes_only_target,
    lemma_remove_keeps_distinct_only, occupied, Invader, Invaders,
};
use crate::shot::Shot;
use crate::{NUM_COLS, NUM_ROWS};

verus! {

/// How many shots the player may have on the field at once.
pub const MAX_SHOTS: usize = 4;

/// Glyph of the player's ship.
pub const PLAYER_GLYPH: char = 'A';

/// The player's ship on the bottom row, with the shots it has fired.
pub struct Player {
    pub x: usize,
    pub y: usize,
    pub shots: Vec<Shot>,
}

/// `before` with each shot of `shots` painted in turn.
pub open spec fn shots_drawn(before: Seq<Seq<char>>, shots: Seq<Shot>) -> Seq<Seq<char>>
    decreases shots.len(),
{
    if shots.len() == 0 {
        before
    } else {
        let last = shots.last();
        paint(shots_drawn(before, shots.drop_last()), last.x as int, last.y as int, last.glyph())
    }
}

/// Hit detection run over `shots` in order against `army`: each shot that is
/// not yet exploding and stands on an invader kills it and starts to explode.
/// Gives the shots and the army afterwards, and whether anything was hit.
pub open spec fn hits(shots: Seq<Shot>, army: Seq<Invader>) -> (Seq<Shot>, Seq<Invader>, bool)
    decreases shots.len(),
{
    if shots.len() == 0 {
        (shots, army, false)
    } else {
        let (done, left, hit) = hits(shots.drop_last(), army);
        let s = shots.last();
        if !s.exploding && occupied(left, s.x as int, s.y as int) {
            (done.push(s.exploded()), killed(left, s.x as int, s.y as int), true)
        } else {
            (done.push(s), left, hit)
        }
    }
}

/// The shots after `delta` microseconds: each one advanced, the dead ones
/// dropped.
pub open spec fn shots_after(shots: Seq<Shot>, delta: u64) -> Seq<Shot> {
    shots.map_values(|s: Shot| s.advanced(delta)).filter(|s: Shot| !s.is_dead())
}

/// After an update no shot that is dead is left: in particular no shot in
/// flight on row 0.
pub proof fn lemma_update_prunes_dead(shots: Seq<Shot>, delta: u64)
    ensures
        forall|i: int|
            0 <= i < shots_after(shots, delta).len() ==> !(#[trigger] shots_after(shots, delta)[i]).is_dead()
                && (!shots_after(shots, delta)[i].exploding ==> shots_after(shots, delta)[i].y != 0),
{
    let advanced = shots.map_values(|s: Shot| s.advanced(delta));
    let pred = |s: Shot| !s.is_dead();
    assert forall|i: int| 0 <= i < shots_after(shots, delta).len() implies !(#[trigger] shots_after(shots, delta)[i]).is_dead() by {
        advanced.lemma_filter_pred(pred, i);
    }
}

/// A lone shot in flight that stands on an invader hits it: it starts to
/// explode and the swarm loses exactly that one member.
pub proof fn lemma_shot_on_invader_hits(s: Shot, army: Seq<Invader>)
    requires
        distinct(army),
        !s.exploding,
        occupied(army, s.x as int, s.y as int),
    ensures
        hits(seq![s], army) == (seq![s.exploded()], killed(army, s.x as int, s.y as int), true),
        killed(army, s.x as int, s.y as int).len() == army.len() - 1,
        !occupied(killed(army, s.x as int, s.y as int), s.x as int, s.y as int),
{
    lemma_kill_removes_only_target(army, s.x as int, s.y as int);
    let one = seq![s];
    assert(one.drop_last() =~= Seq::<Shot>::empty());
    assert(one.last() == s);
    let base = hits(one.drop_last(), army);
    assert(hits(Seq::<Shot>::empty(), army) == (Seq::<Shot>::empty(), army, false));
    assert(base == (Seq::<Shot>::empty(), army, false));
    assert(seq![s.exploded()] =~= Seq::<Shot>::empty().push(s.exploded()));
}

/// Whether some shot of `shots` that is not exploding stands at `(x, y)`.
pub open spec fn targeted(shots: Seq<Shot>, x: int, y: int) -> bool {
    exists|i: int|
        0 <= i < shots.len() && !shots[i].exploding && shots[i].x == x && #[trigger] shots[i].y == y
}

proof fn lemma_targeted_push(shots: Seq<Shot>, s: Shot, x: int, y: int)
    ensures
        targeted(shots.push(s), x, y) == (targeted(shots, x, y) || (!s.exploding && s.x == x && s.y == y)),
{
    let after = shots.push(s);
    if targeted(shots, x, y) {
        let i = choose|i: int|
            0 <= i < shots.len() && !shots[i].exploding && shots[i].x == x && #[trigger] shots[i].y == y;
        assert(after[i] == shots[i]);
    }
    if !s.exploding && s.x == x && s.y == y {
        assert(after[shots.len() as int] == s);
    }
    if targeted(after, x, y) {
        let i = choose|i: int|
            0 <= i < after.len() && !after[i].exploding && after[i].x == x && #[trigger] after[i].y == y;
        if i < shots.len() {
            assert(after[i] == shots[i]);
        }
    }
}

/// What hit detection does, over any shots and any swarm whose members
/// stand on distinct cells:
/// - every shot keeps its place, and a shot that was exploding is left as it was;
/// - a shot that is not exploding afterwards is unchanged and stands on no invader;
/// - exactly the invaders on a cell of some shot that was not exploding are gone,
///   each kill removing the one invader on that cell, and the rest stay apart;
/// - something was hit exactly when the swarm shrank.
pub proof fn lemma_hits_effect(shots: Seq<Shot>, army: Seq<Invader>)
    requires
        distinct(army),
    ensures
        ({
            let (after, left, hit) = hits(shots, army);
            &&& after.len() == shots.len()
            &&& forall|i: int|
                0 <= i < shots.len() ==> (#[trigger] after[i]).x == shots[i].x && after[i].y == shots[i].y
                    && (shots[i].exploding ==> after[i] == shots[i])
                    && (after[i].exploding || after[i] == shots[i])
                    && (after[i].exploding && !shots[i].exploding ==> after[i] == shots[i].exploded())
            &&& forall|i: int|
                0 <= i < shots.len() && !(#[trigger] after[i]).exploding ==> !occupied(
                    left,
                    after[i].x as int,
                    after[i].y as int,
                )
            &&& distinct(left)
            &&& forall|x: int, y: int|
                #[trigger] occupied(left, x, y) == (occupied(army, x, y) && !targeted(shots, x, y))
            &&& left.len() <= army.len()
            &&& hit == (left.len() < army.len())
        }),
    decreases shots.len(),
{
    if shots.len() == 0 {
        assert forall|x: int, y: int| #[trigger] occupied(army, x, y) implies !targeted(shots, x, y) by {}
    } else {
        let prev = shots.drop_last();
        lemma_hits_effect(prev, army);
        let (done, left, hit) = hits(prev, army);
        let s = shots.last();
        assert forall|x: int, y: int| #[trigger] targeted(shots, x, y) == (targeted(prev, x, y)
            || (!s.exploding && s.x == x && s.y == y)) by {
            lemma_targeted_push(prev, s, x, y);
            assert(prev.push(s) =~= shots);
        }
        let (after, left2, hit2) = hits(shots, army);
        if !s.exploding && occupied(left, s.x as int, s.y as int) {
            lemma_kill_removes_only_target(left, s.x as int, s.y as int);
            assert(after == done.push(s.exploded()));
            assert(left2 == killed(left, s.x as int, s.y as int));
            let w = choose|i: int| first_at(left, s.x as int, s.y as int, i);
            lemma_first_at_exists(left, s.x as int, s.y as int);
            lemma_first_at_unique(left, s.x as int, s.y as int, w);
            lemma_remove_keeps_distinct_only(left, w);
            assert forall|i: int|
                0 <= i < shots.len() && !(#[trigger] after[i]).exploding implies !occupied(
                left2,
                after[i].x as int,
                after[i].y as int,
            ) by {
                assert(i < prev.len());
                assert(after[i] == done[i]);
            }
            assert forall|i: int| 0 <= i < shots.len() implies (#[trigger] after[i]).x == shots[i].x
                && after[i].y == shots[i].y && (shots[i].exploding ==> after[i] == shots[i]) && (
                after[i].exploding || after[i] == shots[i]) && (after[i].exploding
                && !shots[i].exploding ==> after[i] == shots[i].exploded()) by {
                if i < prev.len() {
                    assert(after[i] == done[i]);
                    assert(shots[i] == prev[i]);
                }
            }
        } else {
            assert(after == done.push(s));
            assert(left2 == left);
            assert forall|i: int|
                0 <= i < shots.len() && !(#[trigger] after[i]).exploding implies !occupied(
                left2,
                after[i].x as int,
                after[i].y as int,
            ) by {
                if i < prev.len() {
                    assert(after[i] == done[i]);
                }
            }
            assert forall|i: int| 0 <= i < shots.len() implies (#[trigger] after[i]).x == shots[i].x
                && after[i].y == shots[i].y && (shots[i].exploding ==> after[i] == shots[i]) && (
                after[i].exploding || after[i] == shots[i]) && (after[i].exploding
                && !shots[i].exploding ==> after[i] == shots[i].exploded()) by {
                if i < prev.len() {
                    assert(after[i] == done[i]);
                    assert(shots[i] == prev[i]);
                }
            }
            assert forall|x: int, y: int|
                #[trigger] occupied(left2, x, y) == (occupied(army, x, y) && !targeted(shots, x, y)) by {
                if !s.exploding && s.x == x && s.y == y {
                    assert(!occupied(left, x, y));
                }
            }
        }
    }
}

/// Hit detection leaves alone shots none of which, but those exploding,
/// stands on an invader.
proof fn lemma_hits_nothing(shots: Seq<Shot>, army: Seq<Invader>)
    requires
        forall|i: int|
            0 <= i < shots.len() && !(#[trigger] shots[i]).exploding ==> !occupied(
                army,
                shots[i].x as int,
                shots[i].y as int,
            ),
    ensures
        hits(shots, army) == (shots, army, false),
    decreases shots.len(),
{
    if shots.len() > 0 {
        let prev = shots.drop_last();
        assert forall|i: int|
            0 <= i < prev.len() && !(#[trigger] prev[i]).exploding implies !occupied(
            army,
            prev[i].x as int,
            prev[i].y as int,
        ) by {
            assert(prev[i] == shots[i]);
        }
        lemma_hits_nothing(prev, army);
        assert(prev.push(shots.last()) =~= shots);
    }
}

/// A second round of hit detection, right after a first, hits nothing and
/// changes nothing.
pub proof fn lemma_hits_twice(shots: Seq<Shot>, army: Seq<Invader>)
    requires
        distinct(army),
    ensures
        hits(hits(shots, army).0, hits(shots, army).1) == (hits(shots, army).0, hits(shots, army).1, false),
{
    lemma_hits_effect(shots, army);
    lemma_hits_nothing(hits(shots, army).0, hits(shots, army).1);
}

/// A round of hit detection that hits something leaves a smaller swarm,
/// which then moves strictly more often; one that hits nothing leaves the
/// swarm as it was.
pub proof fn lemma_hits_speed_up_swarm(shots: Seq<Shot>, army: Seq<Invader>)
    requires
        distinct(army),
    ensures
        hits(shots, army).2 ==> cadence_spec(hits(shots, army).1.len()) < cadence_spec(army.len()),
        !hits(shots, army).2 ==> hits(shots, army).1 == army,
{
    lemma_hits_effect(shots, army);
    lemma_hits_unchanged_when_no_hit(shots, army);
    if hits(shots, army).2 {
        lemma_cadence_grows_with_count(hits(shots, army).1.len(), army.len());
    }
}

proof fn lemma_hits_unchanged_when_no_hit(shots: Seq<Shot>, army: Seq<Invader>)
    ensures
        !hits(shots, army).2 ==> hits(shots, army).1 == army,
    decreases shots.len(),
{
    if shots.len() > 0 {
        lemma_hits_unchanged_when_no_hit(shots.drop_last(), army);
    }
}

/// A round of hit detection that takes the last invader leaves an empty
/// swarm: the game is won, and not lost.
pub proof fn lemma_last_invader_hit(shots: Seq<Shot>, army: Seq<Invader>, i: int)
    requires
        army.len() == 1,
        0 <= i < shots.len(),
        !shots[i].exploding,
        shots[i].x == army[0].x,
        shots[i].y == army[0].y,
    ensures
        hits(shots, army).2,
        hits(shots, army).1.len() == 0,
        !at_bottom(hits(shots, army).1),
{
    lemma_hits_effect(shots, army);
    let left = hits(shots, army).1;
    assert(targeted(shots, army[0].x as int, army[0].y as int));
    if left.len() > 0 {
        assert(occupied(left, left[0].x as int, left[0].y as int));
        assert(occupied(army, left[0].x as int, left[0].y as int));
    }
}

proof fn lemma_shots_drawn_wf(before: Seq<Seq<char>>, shots: Seq<Shot>)
    requires
        grid_wf(before),
        forall|i: int| 0 <= i < shots.len() ==> (#[trigger] shots[i]).wf(),
    ensures
        grid_wf(shots_drawn(before, shots)),
    decreases shots.len(),
{
    if shots.len() > 0 {
        let prev = shots.drop_last();
        assert forall|i: int| 0 <= i < prev.len() implies (#[trigger] prev[i]).wf() by {
            assert(prev[i] == shots[i]);
        }
        lemma_shots_drawn_wf(before, prev);
        let g = shots_drawn(before, prev);
        let last = shots.last();
        assert(last.wf());
        let after = paint(g, last.x as int, last.y as int, last.glyph());
        assert forall|c: int| 0 <= c < NUM_COLS implies (#[trigger] after[c]).len() == NUM_ROWS by {
            assert(g[c].len() == NUM_ROWS);
        }
    }
}

/// Each shot shows on its own cell unless a later shot stands there: in
/// particular a shot that has just started to explode shows its explosion.
pub proof fn lemma_shot_visible(before: Seq<Seq<char>>, shots: Seq<Shot>, i: int)
    requires
        grid_wf(before),
        forall|k: int| 0 <= k < shots.len() ==> (#[trigger] shots[k]).wf(),
        0 <= i < shots.len(),
        forall|j: int|
            i < j < shots.len() ==> !((#[trigger] shots[j]).x == shots[i].x && shots[j].y == shots[i].y),
    ensures
        shots_drawn(before, shots)[shots[i].x as int][shots[i].y as int] == shots[i].glyph(),
    decreases shots.len(),
{
    let prev = shots.drop_last();
    assert forall|k: int| 0 <= k < prev.len() implies (#[trigger] prev[k]).wf() by {
        assert(prev[k] == shots[k]);
    }
    lemma_shots_drawn_wf(before, prev);
    let last = shots.last();
    assert(last.wf());
    if i < shots.len() - 1 {
        assert forall|j: int|
            i < j < prev.len() implies !((#[trigger] prev[j]).x == prev[i].x && prev[j].y == prev[i].y) by {
            assert(prev[j] == shots[j]);
        }
        assert(prev[i] == shots[i]);
        lemma_shot_visible(before, prev, i);
        assert(!(last.x == shots[i].x && last.y == shots[i].y));
        assert(shots[i].wf());
    }
}

/// Whether shot `i` is the first shot of `shots` not exploding at `(x, y)`.
pub open spec fn first_target(shots: Seq<Shot>, x: int, y: int, i: int) -> bool {
    &&& 0 <= i < shots.len()
    &&& !shots[i].exploding
    &&& shots[i].x == x
    &&& shots[i].y == y
    &&& forall|k: int|
        0 <= k < i ==> !(!shots[k].exploding && shots[k].x == x && #[trigger] shots[k].y == y)
}

/// When the one invader that any shot in flight stands on is at `(x, y)`,
/// hit detection kills exactly that invader and explodes only the first
/// shot in flight on that cell; every other shot is left as it was.
pub proof fn lemma_hits_single_target(shots: Seq<Shot>, army: Seq<Invader>, x: int, y: int)
    requires
        distinct(army),
        occupied(army, x, y),
        targeted(shots, x, y),
        forall|k: int|
            0 <= k < shots.len() && !(#[trigger] shots[k]).exploding && !(shots[k].x == x && shots[k].y
                == y) ==> !occupied(army, shots[k].x as int, shots[k].y as int),
    ensures
        hits(shots, army).2,
        hits(shots, army).1 == killed(army, x, y),
        hits(shots, army).0.len() == shots.len(),
        forall|k: int|
            0 <= k < shots.len() ==> #[trigger] hits(shots, army).0[k] == if first_target(shots, x, y, k) {
                shots[k].exploded()
            } else {
                shots[k]
            },
    decreases shots.len(),
{
    lemma_kill_removes_only_target(army, x, y);
    let prev = shots.drop_last();
    let last = shots.last();
    assert(prev.push(last) =~= shots);
    lemma_targeted_push(prev, last, x, y);
    assert forall|k: int|
        0 <= k < prev.len() && !(#[trigger] prev[k]).exploding && !(prev[k].x == x && prev[k].y == y)
        implies !occupied(army, prev[k].x as int, prev[k].y as int) by {
        assert(prev[k] == shots[k]);
    }
    if targeted(prev, x, y) {
        lemma_hits_single_target(prev, army, x, y);
        let (done, left, hit) = hits(prev, army);
        assert(!(!last.exploding && occupied(left, last.x as int, last.y as int))) by {
            if !last.exploding && !(last.x == x && last.y == y) {
                assert(shots[shots.len() - 1] == last);
                assert(!occupied(army, last.x as int, last.y as int));
            }
        }
        let after = hits(shots, army).0;
        assert(after == done.push(last));
        let w = choose|i: int|
            0 <= i < prev.len() && !prev[i].exploding && prev[i].x == x && #[trigger] prev[i].y == y;
        assert forall|k: int| 0 <= k < shots.len() implies #[trigger] after[k] == if first_target(shots, x, y, k) {
            shots[k].exploded()
        } else {
            shots[k]
        } by {
            if k < prev.len() {
                assert(after[k] == done[k]);
                assert(shots[k] == prev[k]);
                assert(first_target(shots, x, y, k) == first_target(prev, x, y, k)) by {
                    if first_target(prev, x, y, k) {
                        assert forall|m: int| 0 <= m < k implies !(!shots[m].exploding && shots[m].x == x
                            && #[trigger] shots[m].y == y) by {
                            assert(shots[m] == prev[m]);
                        }
                    }
                    if first_target(shots, x, y, k) {
                        assert forall|m: int| 0 <= m < k implies !(!prev[m].exploding && prev[m].x == x
                            && #[trigger] prev[m].y == y) by {
                            assert(shots[m] == prev[m]);
                        }
                    }
                }
            } else {
                assert(shots[w] == prev[w]);
                assert(!first_target(shots, x, y, k));
            }
        }
    } else {
        assert forall|k: int|
            0 <= k < prev.len() && !(#[trigger] prev[k]).exploding implies !occupied(
            army,
            prev[k].x as int,
            prev[k].y as int,
        ) by {
            if prev[k].x == x && prev[k].y == y {
                assert(targeted(prev, x, y));
            }
        }
        lemma_hits_nothing(prev, army);
        let after = hits(shots, army).0;
        assert(after == prev.push(last.exploded()));
        assert forall|k: int| 0 <= k < shots.len() implies #[trigger] after[k] == if first_target(shots, x, y, k) {
            shots[k].exploded()
        } else {
            shots[k]
        } by {
            if k < prev.len() {
                assert(shots[k] == prev[k]);
                if !prev[k].exploding && prev[k].x == x && prev[k].y == y {
                    assert(targeted(prev, x, y));
                }
            } else {
                assert forall|m: int| 0 <= m < k implies !(!shots[m].exploding && shots[m].x == x
                    && #[trigger] shots[m].y == y) by {
                    assert(shots[m] == prev[m]);
                    if !prev[m].exploding && prev[m].x == x && prev[m].y == y {
                        assert(targeted(prev, x, y));
                    }
                }
            }
        }
    }
}

/// A shot in flight on an invader, among shots none other of which in
/// flight stands on an invader, hits: the swarm loses exactly that invader,
/// its cell is left empty, and the shot explodes.
pub proof fn lemma_one_shot_among_others_hits(shots: Seq<Shot>, army: Seq<Invader>, i: int)
    requires
        distinct(army),
        0 <= i < shots.len(),
        !shots[i].exploding,
        occupied(army, shots[i].x as int, shots[i].y as int),
        forall|k: int|
            0 <= k < shots.len() && k != i && !(#[trigger] shots[k]).exploding ==> !occupied(
                army,
                shots[k].x as int,
                shots[k].y as int,
            ),
    ensures
        hits(shots, army).2,
        hits(shots, army).1.len() == army.len() - 1,
        !occupied(hits(shots, army).1, shots[i].x as int, shots[i].y as int),
        hits(shots, army).0[i].exploding,
{
    let x = shots[i].x as int;
    let y = shots[i].y as int;
    assert(targeted(shots, x, y));
    lemma_hits_single_target(shots, army, x, y);
    lemma_kill_removes_only_target(army, x, y);
    assert(first_target(shots, x, y, i));
}

/// Two shots in flight on one invader, among shots none other of which in
/// flight stands on an invader: the earlier kills it and explodes, the later
/// finds the cell empty and flies on, and the swarm loses exactly one.
pub proof fn lemma_two_shots_one_invader(shots: Seq<Shot>, army: Seq<Invader>, i: int, j: int)
    requires
        distinct(army),
        0 <= i < j < shots.len(),
        !shots[i].exploding,
        !shots[j].exploding,
        shots[i].x == shots[j].x,
        shots[i].y == shots[j].y,
        occupied(army, shots[i].x as int, shots[i].y as int),
        forall|k: int|
            0 <= k < shots.len() && k != i && k != j && !(#[trigger] shots[k]).exploding ==> !occupied(
                army,
                shots[k].x as int,
                shots[k].y as int,
            ),
    ensures
        hits(shots, army).2,
        hits(shots, army).1.len() == army.len() - 1,
        hits(shots, army).0[i].exploding,
        !hits(shots, army).0[j].exploding,
{
    let x = shots[i].x as int;
    let y = shots[i].y as int;
    assert(targeted(shots, x, y));
    lemma_hits_single_target(shots, army, x, y);
    lemma_kill_removes_only_target(army, x, y);
    assert(first_target(shots, x, y, i));
    assert(!first_target(shots, x, y, j));
}

impl Player {
    pub open spec fn wf(&self) -> bool {
        &&& self.x < NUM_COLS
        &&& self.y == NUM_ROWS - 1
        &&& self.shots.len() <= MAX_SHOTS
        &&& forall|i: int| 0 <= i < self.shots.len() ==> (#[trigger] self.shots@[i]).wf()
    }

    /// The ship in the middle of the bottom row, with no shot fired.
    pub fn new() -> (p: Player)
        ensures
            p.wf(),
            p.x == NUM_COLS / 2,
            p.y == NUM_ROWS - 1,
            p.shots@.len() == 0,
    {
        Player { x: NUM_COLS / 2, y: NUM_ROWS - 1, shots: Vec::new() }
    }

    /// Fires a shot from the row above the ship, unless `MAX_SHOTS` are
    /// already on the field. Returns whether a shot was fired.
    pub fn shoot(&mut self) -> (fired: bool)
        requires
            old(self).wf(),
        ensures
            final(self).wf(),
            fired == (old(self).shots@.len() < MAX_SHOTS),
            final(self).x == old(self).x,
            final(self).y == old(self).y,
            fired ==> final(self).shots@ == old(self).shots@.push(Shot::fresh(old(self).x, (old(self).y - 1) as usize)),
            !fired ==> final(self).shots@ == old(self).shots@,
    {
        if self.shots.len() < MAX_SHOTS {
            let shot = Shot::new(self.x, self.y - 1);
            self.shots.push(shot);
            true
        } else {
            false
        }
    }

    /// Lets `delta` microseconds pass for every shot, then drops the shots
    /// that are dead.
    pub fn update(&mut self, delta: u64)
        requires
            old(self).wf(),
        ensures
            final(self).wf(),
            final(self).x == old(self).x,
            final(self).y == old(self).y,
            final(self).shots@ == shots_after(old(self).shots@, delta),
    {
        let ghost advanced = self.shots@.map_values(|s: Shot| s.advanced(delta));
        let mut kept: Vec<Shot> = Vec::new();
        let mut i: usize = 0;
        while i < self.shots.len()
            invariant
                i <= self.shots.len(),
                *self == *old(self),
                old(self).wf(),
                advanced == old(self).shots@.map_values(|s: Shot| s.advanced(delta)),
                kept@ == advanced.take(i as int).filter(|s: Shot| !s.is_dead()),
                kept.len() <= i,
                forall|k: int| 0 <= k < kept.len() ==> (#[trigger] kept@[k]).wf(),
            decreases self.shots.len() - i,
        {
            let mut shot = self.shots[i];
            shot.update(delta);
            proof {
                reveal(Seq::filter);
                assert(advanced.take(i + 1).drop_last() =~= advanced.take(i as int));
                assert(advanced.take(i + 1).last() == shot);
            }
            if !shot.dead() {
                kept.push(shot);
            }
            i = i + 1;
        }
        assert(advanced.take(i as int) =~= advanced);
        self.shots = kept;
    }

    /// Runs every shot that is not yet exploding against the swarm: a shot
    /// that stands on an invader kills it and starts to explode. Returns
    /// whether anything was hit.
    pub fn detect_hits(&mut self, invaders: &mut Invaders) -> (hit: bool)
        requires
            old(self).wf(),
            old(invaders).wf(),
        ensures
            final(self).wf(),
            final(invaders).wf(),
            final(self).x == old(self).x,
            final(self).y == old(self).y,
            (final(self).shots@, final(invaders).army@, hit) == hits(old(self).shots@, old(invaders).army@),
            final(invaders).move_timer == old(invaders).move_timer,
            final(invaders).direction == old(invaders).direction,
    {
        let ghost shots0 = self.shots@;
        let ghost army0 = invaders.army@;
        let mut hit_something = false;
        let mut i: usize = 0;
        while i < self.shots.len()
            invariant
                i <= self.shots.len(),
                self.wf(),
                self.x == old(self).x,
                self.y == old(self).y,
                shots0 == old(self).shots@,
                army0 == old(invaders).army@,
                self.shots@.len() == shots0.len(),
                invaders.wf(),
                invaders.move_timer == old(invaders).move_timer,
                invaders.direction == old(invaders).direction,
                hits(shots0.take(i as int), army0).0.len() == i,
                forall|k: int| 0 <= k < i ==> #[trigger] self.shots@[k] == hits(shots0.take(i as int), army0).0[k],
                forall|k: int| i <= k < shots0.len() ==> #[trigger] self.shots@[k] == shots0[k],
                invaders.army@ == hits(shots0.take(i as int), army0).1,
                hit_something == hits(shots0.take(i as int), army0).2,
            decreases self.shots.len() - i,
        {
            let mut shot = self.shots[i];
            proof {
                assert(shots0.take(i + 1).drop_last() =~= shots0.take(i as int));
                assert(shots0.take(i + 1).last() == shot);
            }
            if !shot.exploding {
                if invaders.kill_invader_at(shot.x, shot.y) {
                    hit_something = true;
                    shot.explode();
                    self.shots.set(i, shot);
                }
            }
            i = i + 1;
        }
        assert(shots0.take(i as int) =~= shots0);
        assert(self.shots@ =~= hits(shots0, army0).0);
        hit_something
    }

    /// One column to the left, unless already at the left edge.
    pub fn move_left(&mut self)
        requires
            old(self).wf(),
        ensures
            final(self).wf(),
            final(self).x == if old(self).x > 0 { old(self).x - 1 } else { 0int },
            final(self).y == old(self).y,
            final(self).shots@ == old(self).shots@,
    {
        if self.x > 0 {
            self.x -= 1;
        }
    }

    /// One column to the right, unless already at the right edge.
    pub fn move_right(&mut self)
        requires
            old(self).wf(),
        ensures
            final(self).wf(),
            final(self).x == if old(self).x < NUM_COLS - 1 { old(self).x + 1 } else { old(self).x as int },
            final(self).y == old(self).y,
            final(self).shots@ == old(self).shots@,
    {
        if self.x < NUM_COLS - 1 {
            self.x += 1;
        }
    }
}

impl Drawable for Player {
    open spec fn draw_ready(&self) -> bool {
        self.wf()
    }

    open spec fn drawn(&self, before: Seq<Seq<char>>) -> Seq<Seq<char>> {
        shots_drawn(paint(before, self.x as int, self.y as int, PLAYER_GLYPH), self.shots@)
    }

    fn draw(&self, frame: &mut Frame) {
        frame.set(self.x, self.y, PLAYER_GLYPH);
        let ghost start = frame@;
        let mut i: usize = 0;
        while i < self.shots.len()
            invariant
                i <= self.shots.len(),
                self.wf(),
                frame.wf(),
                start == paint(old(frame)@, self.x as int, self.y as int, PLAYER_GLYPH),
                frame@ == shots_drawn(start, self.shots@.take(i as int)),
            decreases self.shots.len() - i,
        {
            self.shots[i].draw(frame);
            assert(self.shots@.take(i + 1).drop_last() =~= self.shots@.take(i as int));
            i = i + 1;
        }
        assert(self.shots@.take(i as int) =~= self.shots@);
    }
}

} // verus!
