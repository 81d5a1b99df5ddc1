use vstd::prelude::*;

use crate::constants::{PIECE_SIZE, PLAYFIELD_H, PLAYFIELD_W};
use crate::grid::{Grid, at, can_land, landing_offset, lands_at, stamp, stamped};
use crate::tetromino::{
    Offset, PieceMat4, Tetromino, lemma_mask_cells, lemma_table_shape, mat4_of, piece_cells,
    place_cells, placeable, placed, table,
};

verus! {

/// An earlier playfield: one grid, into which pieces drop in the columns of
/// their mask, from the left edge.
pub struct Universe {
    game: Grid,
}

/// The cells of a mask resting on the bottom row, in the first four columns.
pub open spec fn drop_cells(piece: PieceMat4, offsets: Offset) -> Seq<(usize, usize, u8)> {
    placed(piece, 0, 0, PLAYFIELD_H - PIECE_SIZE + offsets.down, 0)
}

impl Universe {
    /// The grid's contents.
    pub closed spec fn grid(&self) -> Grid {
        self.game
    }

    /// An empty universe.
    pub fn new() -> (r: Self)
        ensures
            forall|x: int, y: int|
                0 <= x < PLAYFIELD_W && 0 <= y < PLAYFIELD_H ==> #[trigger] at(r.grid(), x, y) == 0,
    {
        Self { game: [[0u8; PLAYFIELD_H]; PLAYFIELD_W] }
    }

    /// The code of a cell.
    pub fn cell(&self, x: usize, y: usize) -> (r: u8)
        requires
            x < PLAYFIELD_W,
            y < PLAYFIELD_H,
        ensures
            r == at(self.grid(), x as int, y as int),
    {
        self.game[x][y]
    }

    /// Whether the piece's mask, resting on the bottom row and raised by
    /// `offset` rows, meets a non-empty cell.
    pub fn collided_with_bottom(&self, piece: PieceMat4, offsets: &Offset, offset: &usize) -> (r: bool)
        requires
            placeable(piece, 0, 0, PLAYFIELD_H - PIECE_SIZE + offsets.down, 0),
            offsets.down <= PIECE_SIZE,
            crate::grid::fits(drop_cells(piece, *offsets), *offset as int),
        ensures
            r == crate::grid::hits(self.grid(), drop_cells(piece, *offsets), *offset as int),
    {
        let cells = place_cells(&piece, 0, 0, (PLAYFIELD_H - PIECE_SIZE) + offsets.down, 0);
        proof {
            lemma_cells_ok(piece, *offsets);
        }
        crate::grid::collides_at(&self.game, &cells, *offset)
    }

    /// Drops the piece's mask, by its kind and rotation, from the bottom row
    /// to the lowest place where its cells meet only empty cells, and writes
    /// its code there.
    pub fn add(&mut self, tetro: &Tetromino)
        requires
            can_land(
                old(self).grid(),
                drop_cells(
                    table(tetro.kind, tetro.current_rotation).0,
                    table(tetro.kind, tetro.current_rotation).1,
                ),
                0,
            ),
        ensures
            ({
                let cells = drop_cells(
                    table(tetro.kind, tetro.current_rotation).0,
                    table(tetro.kind, tetro.current_rotation).1,
                );
                exists|k: int|
                    lands_at(old(self).grid(), cells, 0, k) && stamped(
                        old(self).grid(),
                        final(self).grid(),
                        cells,
                        k,
                        tetro.kind.code(),
                    )
            }),
    {
        let (piece, offsets) = mat4_of(tetro.kind, tetro.current_rotation);
        proof {
            lemma_table_shape(tetro.kind, tetro.current_rotation);
            lemma_cells_ok(piece, offsets);
        }
        let cells = place_cells(&piece, 0, 0, (PLAYFIELD_H - PIECE_SIZE) + offsets.down, 0);
        let offset = landing_offset(&self.game, &cells, 0);
        stamp(&mut self.game, &cells, offset, tetro.kind.value());
    }
}

/// The dropped cells of a mask lie on the grid.
proof fn lemma_cells_ok(piece: PieceMat4, offsets: Offset)
    requires
        placeable(piece, 0, 0, PLAYFIELD_H - PIECE_SIZE + offsets.down, 0),
    ensures
        crate::grid::cells_ok(drop_cells(piece, offsets)),
{
    lemma_mask_cells(piece, 3, 4);
    assert forall|j: int| 0 <= j < drop_cells(piece, offsets).len() implies (#[trigger] drop_cells(
        piece,
        offsets,
    )[j]).0 < PLAYFIELD_W && drop_cells(piece, offsets)[j].1 < PLAYFIELD_H by {
        let e = piece_cells(piece)[j];
        assert(piece@[e.0]@[e.1] != 0);
    }
}

} // verus!
