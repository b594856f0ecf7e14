use vstd::prelude::*;

use crate::frame::Frame;
use crate::{NUM_COLS, NUM_ROWS};

verus! {

/// One cell to write to the terminal: column, row and glyph.
pub type CellWrite = (usize, usize, char);

/// Column of the `k`-th cell, counting column by column.
pub open spec fn col_of(k: int) -> int {
    k / NUM_ROWS as int
}

/// Row of the `k`-th cell, counting column by column.
pub open spec fn row_of(k: int) -> int {
    k % NUM_ROWS as int
}

/// Whether the `k`-th cell is to be written: always on a full redraw,
/// otherwise only where it changed.
pub open spec fn needs_write(last: Seq<Seq<char>>, curr: Seq<Seq<char>>, force: bool, k: int) -> bool {
    force || last[col_of(k)][row_of(k)] != curr[col_of(k)][row_of(k)]
}

/// The writes for the first `n` cells, column by column.
pub open spec fn writes_upto(last: Seq<Seq<char>>, curr: Seq<Seq<char>>, force: bool, n: nat) -> Seq<CellWrite>
    decreases n,
{
    if n == 0 {
        Seq::empty()
    } else {
        let k = n - 1;
        let before = writes_upto(last, curr, force, (n - 1) as nat);
        if needs_write(last, curr, force, k) {
            before.push((col_of(k) as usize, row_of(k) as usize, curr[col_of(k)][row_of(k)]))
        } else {
            before
        }
    }
}

/// Every write that brings a terminal showing `last` to show `curr`.
pub open spec fn frame_writes(last: Seq<Seq<char>>, curr: Seq<Seq<char>>, force: bool) -> Seq<CellWrite> {
    writes_upto(last, curr, force, (NUM_COLS * NUM_ROWS) as nat)
}

/// The cells to write to turn the terminal from `last_frame` into
/// `curr_frame`, column by column: every cell when `force` is set, otherwise
/// only the cells that changed.
pub fn frame_diff(last_frame: &Frame, curr_frame: &Frame, force: bool) -> (writes: Vec<CellWrite>)
    requires
        last_frame.wf(),
        curr_frame.wf(),
    ensures
        writes@ == frame_writes(last_frame@, curr_frame@, force),
{
    let mut writes: Vec<CellWrite> = Vec::new();
    let mut x: usize = 0;
    while x < NUM_COLS
        invariant
            x <= NUM_COLS,
            last_frame.wf(),
            curr_frame.wf(),
            writes@ == writes_upto(last_frame@, curr_frame@, force, (x * NUM_ROWS) as nat),
        decreases NUM_COLS - x,
    {
        let mut y: usize = 0;
        while y < NUM_ROWS
            invariant
                x < NUM_COLS,
                y <= NUM_ROWS,
                last_frame.wf(),
                curr_frame.wf(),
                writes@ == writes_upto(last_frame@, curr_frame@, force, (x * NUM_ROWS + y) as nat),
            decreases NUM_ROWS - y,
        {
            let c = curr_frame.cell(x, y);
            let k: usize = x * NUM_ROWS + y;
            assert(col_of(k as int) == x && row_of(k as int) == y) by (nonlinear_arith)
                requires k == x * NUM_ROWS + y, y < NUM_ROWS;
            if force || last_frame.cell(x, y) != c {
                writes.push((x, y, c));
            }
            y = y + 1;
        }
        x = x + 1;
    }
    writes
}

/// A full redraw writes every cell of the field, whatever the frames hold.
pub proof fn lemma_full_redraw_writes_all(last: Seq<Seq<char>>, curr: Seq<Seq<char>>)
    ensures
        frame_writes(last, curr, true).len() == NUM_COLS * NUM_ROWS,
{
    lemma_forced_writes_len(last, curr, (NUM_COLS * NUM_ROWS) as nat);
}

proof fn lemma_forced_writes_len(last: Seq<Seq<char>>, curr: Seq<Seq<char>>, n: nat)
    ensures
        writes_upto(last, curr, true, n).len() == n,
    decreases n,
{
    if n > 0 {
        lemma_forced_writes_len(last, curr, (n - 1) as nat);
    }
}

/// Between two equal frames, without a full redraw, nothing is written.
pub proof fn lemma_unchanged_frame_writes_nothing(last: Seq<Seq<char>>, curr: Seq<Seq<char>>)
    requires
        last == curr,
    ensures
        frame_writes(last, curr, false).len() == 0,
{
    lemma_unchanged_writes_len(last, curr, (NUM_COLS * NUM_ROWS) as nat);
}

proof fn lemma_unchanged_writes_len(last: Seq<Seq<char>>, curr: Seq<Seq<char>>, n: nat)
    requires
        last == curr,
    ensures
        writes_upto(last, curr, false, n).len() == 0,
    decreases n,
{
    if n > 0 {
        lemma_unchanged_writes_len(last, curr, (n - 1) as nat);
    }
}

} // verus!
