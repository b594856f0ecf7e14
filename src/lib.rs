use vstd::prelude::*;

pub mod frame;
pub mod game;
pub mod invaders;
pub mod player;
pub mod render;
pub mod shot;
pub mod timer;

verus! {

/// Number of columns of the playing field.
pub const NUM_COLS: usize = 40;

/// Number of rows of the playing field.
pub const NUM_ROWS: usize = 20;

} // verus!
