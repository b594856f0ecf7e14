use vstd::prelude::*;

use crate::{NUM_COLS, NUM_ROWS};

verus! {

/// The glyph of a cell that nothing has been drawn into.
pub const BLANK: char = ' ';

/// A grid of glyphs, indexed by column and then by row.
pub struct Frame {
    pub cells: Vec<Vec<char>>,
}

/// Whether `(x, y)` lies inside the playing field.
pub open spec fn in_bounds(x: int, y: int) -> bool {
    0 <= x < NUM_COLS && 0 <= y < NUM_ROWS
}

/// `f` with the cell at `(x, y)` replaced by `c`.
pub open spec fn paint(f: Seq<Seq<char>>, x: int, y: int, c: char) -> Seq<Seq<char>> {
    f.update(x, f[x].update(y, c))
}

impl View for Frame {
    type V = Seq<Seq<char>>;

    open spec fn view(&self) -> Seq<Seq<char>> {
        self.cells@.map_values(|col: Vec<char>| col@)
    }
}

/// Whether a grid has `NUM_COLS` columns of `NUM_ROWS` cells each.
pub open spec fn grid_wf(g: Seq<Seq<char>>) -> bool {
    &&& g.len() == NUM_COLS
    &&& forall|i: int| 0 <= i < NUM_COLS ==> (#[trigger] g[i]).len() == NUM_ROWS
}

impl Frame {
    pub open spec fn wf(&self) -> bool {
        grid_wf(self@)
    }

    /// The glyph at column `x`, row `y`.
    pub fn cell(&self, x: usize, y: usize) -> (c: char)
        requires
            self.wf(),
            in_bounds(x as int, y as int),
        ensures
            c == self@[x as int][y as int],
    {
        assert(self@[x as int] == self.cells@[x as int]@);
        self.cells[x][y]
    }

    /// Writes `c` at column `x`, row `y`.
    pub fn set(&mut self, x: usize, y: usize, c: char)
        requires
            old(self).wf(),
            in_bounds(x as int, y as int),
        ensures
            final(self).wf(),
            final(self)@ == paint(old(self)@, x as int, y as int, c),
    {
        assert(self@[x as int] == self.cells@[x as int]@);
        self.cells[x].set(y, c);
        assert(self@ =~= paint(old(self)@, x as int, y as int, c));
    }
}

/// A blank frame of the playing field's size.
pub fn new_frame() -> (f: Frame)
    ensures
        f.wf(),
        forall|x: int, y: int| in_bounds(x, y) ==> #[trigger] f@[x][y] == BLANK,
{
    let mut cols: Vec<Vec<char>> = Vec::new();
    let mut i: usize = 0;
    while i < NUM_COLS
        invariant
            i <= NUM_COLS,
            cols.len() == i,
            forall|k: int| 0 <= k < i ==> (#[trigger] cols@[k])@ == Seq::new(NUM_ROWS as nat, |j: int| BLANK),
        decreases NUM_COLS - i,
    {
        let col: Vec<char> = vec![BLANK; NUM_ROWS];
        assert(col@ =~= Seq::new(NUM_ROWS as nat, |j: int| BLANK));
        cols.push(col);
        i = i + 1;
    }
    Frame { cells: cols }
}

/// Something that can draw itself into a frame.
pub trait Drawable {
    /// Whether the drawable is in a state it can draw from.
    spec fn draw_ready(&self) -> bool;

    /// The grid that drawing `self` turns `before` into.
    spec fn drawn(&self, before: Seq<Seq<char>>) -> Seq<Seq<char>>;

    fn draw(&self, frame: &mut Frame)
        requires
            self.draw_ready(),
            old(frame).wf(),
        ensures
            final(frame).wf(),
            final(frame)@ == self.drawn(old(frame)@),
    ;
}

} // verus!
