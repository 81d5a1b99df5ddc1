use vstd::prelude::*;

verus! {

/// Columns of the playfield.
pub const PLAYFIELD_W: usize = 10;

/// Largest column index.
pub const W: usize = 9;

/// Largest column index, signed.
pub const IW: isize = 9;

/// Rows of the playfield.
pub const PLAYFIELD_H: usize = 24;

/// Largest row index.
pub const H: usize = 23;

/// Largest row index, signed.
pub const IH: isize = 23;

/// Side of the square mask that holds a piece.
pub const PIECE_SIZE: usize = 4;

/// Cell code of a debug marker.
pub const DEBUG_TETRO: u8 = 9;

/// Cell code of the permanent ground.
pub const DEBUG_GROUND: u8 = 8;

/// Cell code of an empty cell.
pub const NONE_VALUE: u8 = 0;

/// Number of piece kinds.
pub const NUMBER_OF_TETROMINOS: usize = 7;

/// Floor code of a cell painted as a landing preview.
pub const PREVIEW_VALUE: u8 = 6;

/// Floor code of an empty cell that no open path reaches.
pub const HOLE_VALUE: u8 = 7;

/// Floor code that marks open cells while holes are searched for.
pub const PLAYABLE_VALUE: u8 = 2;

} // verus!
