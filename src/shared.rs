use vstd::prelude::*;

use crate::constants::{PLAYFIELD_H, PLAYFIELD_W};
use crate::grid::{Grid, at};
use crate::tetromino::{PieceMat4, Tetromino};

verus! {

/// Horizontal side.
#[derive(Debug, Clone, Copy, PartialEq, Eq, Structural)]
pub enum X {
    Left,
    Right,
}

/// Vertical side.
#[derive(Debug, Clone, Copy, PartialEq, Eq, Structural)]
pub enum Y {
    Top,
    Bottom,
}

/// Events that drive the game's screens. A tap carries the time it was
/// registered and the window, both in milliseconds, within which a second
/// tap makes a double tap.
#[derive(Debug, Clone, Copy, PartialEq, Eq, Structural)]
pub enum Evt {
    Nothing,
    Tap(u64, u64),
    DTap,
    Dead,
    Play,
    Menu,
    Exit,
    Pause,
}

/// The cell after (`col`, `row`) when a `width`-wide grid is walked row by row.
pub open spec fn step(cursor: (int, int), width: int) -> (int, int) {
    if cursor.0 + 1 >= width {
        (0, cursor.1 + 1)
    } else {
        (cursor.0 + 1, cursor.1)
    }
}

/// Walks a piece's mask row by row, giving (column, row, value).
pub struct Mat4x4 {
    tetro: PieceMat4,
    row: usize,
    col: usize,
}

impl Mat4x4 {
    /// The mask walked.
    pub closed spec fn mask(&self) -> PieceMat4 {
        self.tetro
    }

    /// The next cell to give, as (column, row).
    pub closed spec fn cursor(&self) -> (int, int) {
        (self.col as int, self.row as int)
    }

    /// The cursor lies on the mask or just past its last row.
    pub closed spec fn wf(&self) -> bool {
        self.col < 4 && self.row <= 4 && (self.row == 4 ==> self.col == 0)
    }

    /// A walk over the piece's mask from its top left cell.
    pub fn iter(tetro: &Tetromino) -> (r: Self)
        ensures
            r.wf(),
            r.mask() == tetro.playfield.mat4,
            r.cursor() == (0int, 0int),
    {
        Mat4x4 { tetro: tetro.playfield.mat4, row: 0, col: 0 }
    }

    /// The cell at the cursor, and the cursor moves on; nothing once past the last row.
    pub fn next(&mut self) -> (r: Option<(usize, usize, u8)>)
        requires
            old(self).wf(),
        ensures
            final(self).wf(),
            final(self).mask() == old(self).mask(),
            ({
                let c = old(self).cursor();
                if c.1 >= 4 {
                    r == None::<(usize, usize, u8)> && final(self).cursor() == c
                } else {
                    r == Some((c.0 as usize, c.1 as usize, old(self).mask()@[c.1]@[c.0]))
                        && final(self).cursor() == step(c, 4)
                }
            }),
    {
        if self.row >= 4 {
            return None;
        }
        let current_value = self.tetro[self.row][self.col];
        let current_position = (self.col, self.row);
        self.col += 1;
        if self.col >= 4 {
            self.col = 0;
            self.row += 1;
        }
        Some((current_position.0, current_position.1, current_value))
    }
}

/// Walks a playfield grid row by row, giving (column, row, value).
pub struct Matrix {
    matrix: Grid,
    row: usize,
    col: usize,
}

impl Matrix {
    /// The grid walked.
    pub closed spec fn grid(&self) -> Grid {
        self.matrix
    }

    /// The next cell to give, as (column, row).
    pub closed spec fn cursor(&self) -> (int, int) {
        (self.col as int, self.row as int)
    }

    /// The cursor lies on the grid or just past its last row.
    pub closed spec fn wf(&self) -> bool {
        self.col < PLAYFIELD_W && self.row <= PLAYFIELD_H && (self.row == PLAYFIELD_H ==> self.col == 0)
    }

    /// A walk over the grid from its top left cell.
    pub fn iter(matrix: Grid) -> (r: Self)
        ensures
            r.wf(),
            r.grid() == matrix,
            r.cursor() == (0int, 0int),
    {
        Matrix { matrix, row: 0, col: 0 }
    }

    /// The cell at the cursor, and the cursor moves on; nothing once past the last row.
    pub fn next(&mut self) -> (r: Option<(usize, usize, u8)>)
        requires
            old(self).wf(),
        ensures
            final(self).wf(),
            final(self).grid() == old(self).grid(),
            ({
                let c = old(self).cursor();
                if c.1 >= PLAYFIELD_H {
                    r == None::<(usize, usize, u8)> && final(self).cursor() == c
                } else {
                    r == Some((c.0 as usize, c.1 as usize, at(old(self).grid(), c.0, c.1)))
                        && final(self).cursor() == step(c, PLAYFIELD_W as int)
                }
            }),
    {
        if self.row >= PLAYFIELD_H {
            return None;
        }
        let current_value = self.matrix[self.col][self.row];
        let current_position = (self.col, self.row);
        self.col += 1;
        if self.col >= PLAYFIELD_W {
            self.col = 0;
            self.row += 1;
        }
        Some((current_position.0, current_position.1, current_value))
    }
}

} // verus!
