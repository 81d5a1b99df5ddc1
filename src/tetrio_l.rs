use vstd::prelude::*;

use crate::tetromino::{Clock, Coord, Offset, PieceMat4, Tetromino, extent_of};

verus! {

/// The L piece, cell code 3.
pub struct TetrioL;

impl TetrioL {
    /// Mask and empty border of the L piece in each rotation.
    pub open spec fn table(rotation: Clock) -> (PieceMat4, Offset) {
        match rotation {
            Clock::P12 => (
                [[0, 0, 0, 0], [0, 3, 0, 0], [0, 3, 0, 0], [0, 3, 3, 0]],
                Offset { up: 1, down: 0, left: 1, right: 1 },
            ),
            Clock::P3 => (
                [[0, 0, 0, 0], [3, 3, 3, 0], [3, 0, 0, 0], [0, 0, 0, 0]],
                Offset { up: 1, down: 1, left: 0, right: 1 },
            ),
            Clock::P6 => (
                [[0, 3, 3, 0], [0, 0, 3, 0], [0, 0, 3, 0], [0, 0, 0, 0]],
                Offset { up: 0, down: 1, left: 1, right: 1 },
            ),
            Clock::P9 => (
                [[0, 0, 0, 0], [0, 0, 0, 3], [0, 3, 3, 3], [0, 0, 0, 0]],
                Offset { up: 1, down: 1, left: 1, right: 0 },
            ),
        }
    }

    /// Mask and empty border of the piece in a rotation.
    pub fn rotated(rotation: Clock) -> (r: (PieceMat4, Offset))
        ensures
            r == Self::table(rotation),
    {
        match rotation {
            Clock::P12 => (
                [[0, 0, 0, 0], [0, 3, 0, 0], [0, 3, 0, 0], [0, 3, 3, 0]],
                Offset { up: 1, down: 0, left: 1, right: 1 },
            ),
            Clock::P3 => (
                [[0, 0, 0, 0], [3, 3, 3, 0], [3, 0, 0, 0], [0, 0, 0, 0]],
                Offset { up: 1, down: 1, left: 0, right: 1 },
            ),
            Clock::P6 => (
                [[0, 3, 3, 0], [0, 0, 3, 0], [0, 0, 3, 0], [0, 0, 0, 0]],
                Offset { up: 0, down: 1, left: 1, right: 1 },
            ),
            Clock::P9 => (
                [[0, 0, 0, 0], [0, 0, 0, 3], [0, 3, 3, 3], [0, 0, 0, 0]],
                Offset { up: 1, down: 1, left: 1, right: 0 },
            ),
        }
    }

    /// Mask and empty border of the piece's current rotation.
    pub fn mat4(tetro: &Tetromino) -> (r: (PieceMat4, Offset))
        ensures
            r == Self::table(tetro.current_rotation),
    {
        Self::rotated(tetro.current_rotation)
    }

    /// Width and height, in cells, of the piece in a rotation.
    pub fn size(rotation: Clock) -> (r: Coord)
        ensures
            r == extent_of(Self::table(rotation).1),
    {
        match rotation {
            Clock::P12 => Coord { x: 2, y: 3 },
            Clock::P3 => Coord { x: 3, y: 2 },
            Clock::P6 => Coord { x: 2, y: 3 },
            Clock::P9 => Coord { x: 3, y: 2 },
        }
    }
}

} // verus!
