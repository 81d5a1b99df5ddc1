use vstd::prelude::*;

use crate::tetromino::{Clock, Coord, Offset, PieceMat4, Tetromino, extent_of};

verus! {

/// The O piece, cell code 4.
pub struct TetrioO;

impl TetrioO {
    /// Mask and empty border of the O piece in each rotation.
    pub open spec fn table(rotation: Clock) -> (PieceMat4, Offset) {
        match rotation {
            Clock::P12 => (
                [[0, 0, 0, 0], [0, 4, 4, 0], [0, 4, 4, 0], [0, 0, 0, 0]],
                Offset { up: 1, down: 1, left: 1, right: 1 },
            ),
            Clock::P3 => (
                [[0, 0, 0, 0], [0, 4, 4, 0], [0, 4, 4, 0], [0, 0, 0, 0]],
                Offset { up: 1, down: 1, left: 1, right: 1 },
            ),
            Clock::P6 => (
                [[0, 0, 0, 0], [0, 4, 4, 0], [0, 4, 4, 0], [0, 0, 0, 0]],
                Offset { up: 1, down: 1, left: 1, right: 1 },
            ),
            Clock::P9 => (
                [[0, 0, 0, 0], [0, 4, 4, 0], [0, 4, 4, 0], [0, 0, 0, 0]],
                Offset { up: 1, down: 1, left: 1, right: 1 },
            ),
        }
    }

    /// Mask and empty border of the piece in a rotation.
    pub fn rotated(rotation: Clock) -> (r: (PieceMat4, Offset))
        ensures
            r == Self::table(rotation),
    {
        match rotation {
            Clock::P12 => (
                [[0, 0, 0, 0], [0, 4, 4, 0], [0, 4, 4, 0], [0, 0, 0, 0]],
                Offset { up: 1, down: 1, left: 1, right: 1 },
            ),
            Clock::P3 => (
                [[0, 0, 0, 0], [0, 4, 4, 0], [0, 4, 4, 0], [0, 0, 0, 0]],
                Offset { up: 1, down: 1, left: 1, right: 1 },
            ),
            Clock::P6 => (
                [[0, 0, 0, 0], [0, 4, 4, 0], [0, 4, 4, 0], [0, 0, 0, 0]],
                Offset { up: 1, down: 1, left: 1, right: 1 },
            ),
            Clock::P9 => (
                [[0, 0, 0, 0], [0, 4, 4, 0], [0, 4, 4, 0], [0, 0, 0, 0]],
                Offset { up: 1, down: 1, left: 1, right: 1 },
            ),
        }
    }

    /// Mask and empty border of the piece's current rotation.
    pub fn mat4(tetro: &Tetromino) -> (r: (PieceMat4, Offset))
        ensures
            r == Self::table(tetro.current_rotation),
    {
        Self::rotated(tetro.current_rotation)
    }

    /// Width and height, in cells, of the piece in a rotation.
    pub fn size(rotation: Clock) -> (r: Coord)
        ensures
            r == extent_of(Self::table(rotation).1),
    {
        match rotation {
            Clock::P12 => Coord { x: 2, y: 2 },
            Clock::P3 => Coord { x: 2, y: 2 },
            Clock::P6 => Coord { x: 2, y: 2 },
            Clock::P9 => Coord { x: 2, y: 2 },
        }
    }
}

} // verus!
