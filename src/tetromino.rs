use vstd::prelude::*;

use crate::constants::{NONE_VALUE, PIECE_SIZE, PLAYFIELD_H, PLAYFIELD_W};
use crate::tetrio_i::TetrioI;
use crate::tetrio_j::TetrioJ;
use crate::tetrio_l::TetrioL;
use crate::tetrio_o::TetrioO;
use crate::tetrio_s::TetrioS;
use crate::tetrio_t::TetrioT;
use crate::tetrio_z::TetrioZ;

verus! {

/// A 4x4 mask, indexed by row then column; 0 is an empty cell.
pub type PieceMat4 = [[u8; 4]; 4];

/// The seven piece kinds.
#[derive(Debug, Clone, Copy, PartialEq, Eq, Structural)]
pub enum TetroK {
    I,
    J,
    L,
    O,
    S,
    T,
    Z,
}

/// The four rotations, named after the hours of a clock face.
#[derive(Debug, Clone, Copy, PartialEq, Eq, Structural)]
pub enum Clock {
    P12,
    P3,
    P6,
    P9,
}

/// A pair of grid quantities: a column and a row, or a width and a height.
#[derive(Debug, Clone, Copy, PartialEq, Eq, Structural)]
pub struct Coord {
    pub x: usize,
    pub y: usize,
}

/// Empty rows and columns on each side of a piece's mask.
#[derive(Debug, Clone, Copy, PartialEq, Eq, Structural)]
pub struct Offset {
    pub up: usize,
    pub down: usize,
    pub left: usize,
    pub right: usize,
}

impl TetroK {
    /// The cell code that the kind writes into the grids.
    pub open spec fn code(self) -> u8 {
        match self {
            TetroK::I => 1,
            TetroK::J => 2,
            TetroK::L => 3,
            TetroK::O => 4,
            TetroK::S => 5,
            TetroK::T => 6,
            TetroK::Z => 7,
        }
    }

    /// The kind whose cell code is `value`.
    pub fn from(value: u8) -> (r: TetroK)
        requires
            1 <= value <= 7,
        ensures
            r.code() == value,
    {
        match value {
            1 => TetroK::I,
            2 => TetroK::J,
            3 => TetroK::L,
            4 => TetroK::O,
            5 => TetroK::S,
            6 => TetroK::T,
            _ => TetroK::Z,
        }
    }

    /// The cell code of the kind.
    pub fn value(&self) -> (r: u8)
        ensures
            r == self.code(),
    {
        match self {
            TetroK::I => 1,
            TetroK::J => 2,
            TetroK::L => 3,
            TetroK::O => 4,
            TetroK::S => 5,
            TetroK::T => 6,
            TetroK::Z => 7,
        }
    }

    /// Width and height, in cells, of the kind in a rotation.
    pub fn size(&self, rotation: Clock) -> (r: Coord)
        ensures
            r == extent_of(table(*self, rotation).1),
    {
        match self {
            TetroK::I => TetrioI::size(rotation),
            TetroK::J => TetrioJ::size(rotation),
            TetroK::L => TetrioL::size(rotation),
            TetroK::O => TetrioO::size(rotation),
            TetroK::S => TetrioS::size(rotation),
            TetroK::T => TetrioT::size(rotation),
            TetroK::Z => TetrioZ::size(rotation),
        }
    }
}

impl Clock {
    /// The rotation a quarter turn further.
    pub open spec fn next(self) -> Clock {
        match self {
            Clock::P12 => Clock::P3,
            Clock::P3 => Clock::P6,
            Clock::P6 => Clock::P9,
            Clock::P9 => Clock::P12,
        }
    }
}

/// Mask and empty border of a kind in a rotation.
pub open spec fn table(kind: TetroK, rotation: Clock) -> (PieceMat4, Offset) {
    match kind {
        TetroK::I => TetrioI::table(rotation),
        TetroK::J => TetrioJ::table(rotation),
        TetroK::L => TetrioL::table(rotation),
        TetroK::O => TetrioO::table(rotation),
        TetroK::S => TetrioS::table(rotation),
        TetroK::T => TetrioT::table(rotation),
        TetroK::Z => TetrioZ::table(rotation),
    }
}

/// Width and height of the box that an empty border leaves in a 4x4 mask.
pub open spec fn extent_of(o: Offset) -> Coord {
    Coord { x: (4 - o.left - o.right) as usize, y: (4 - o.up - o.down) as usize }
}

/// Whether row `r` of a mask holds a cell.
pub open spec fn row_used(m: PieceMat4, r: int) -> bool {
    m@[r]@[0] != 0 || m@[r]@[1] != 0 || m@[r]@[2] != 0 || m@[r]@[3] != 0
}

/// Whether column `c` of a mask holds a cell.
pub open spec fn col_used(m: PieceMat4, c: int) -> bool {
    m@[0]@[c] != 0 || m@[1]@[c] != 0 || m@[2]@[c] != 0 || m@[3]@[c] != 0
}

/// 1 where a mask cell is occupied, else 0.
pub open spec fn used(m: PieceMat4, r: int, c: int) -> int {
    if m@[r]@[c] != 0 { 1 } else { 0 }
}

/// Number of occupied cells of a mask.
pub open spec fn cell_count(m: PieceMat4) -> int {
    used(m, 0, 0) + used(m, 0, 1) + used(m, 0, 2) + used(m, 0, 3)
    + used(m, 1, 0) + used(m, 1, 1) + used(m, 1, 2) + used(m, 1, 3)
    + used(m, 2, 0) + used(m, 2, 1) + used(m, 2, 2) + used(m, 2, 3)
    + used(m, 3, 0) + used(m, 3, 1) + used(m, 3, 2) + used(m, 3, 3)
}

/// A mask of four cells of one code, whose offset record is exactly its empty border.
pub open spec fn shape_ok(m: PieceMat4, o: Offset, code: u8) -> bool {
    &&& o.left + o.right < 4
    &&& o.up + o.down < 4
    &&& forall|r: int, c: int|
        0 <= r < 4 && 0 <= c < 4 ==> (#[trigger] m@[r]@[c] == 0 || m@[r]@[c] == code)
    &&& forall|r: int, c: int|
        0 <= r < 4 && 0 <= c < 4 && #[trigger] m@[r]@[c] != 0 ==> o.up <= r < 4 - o.down && o.left
            <= c < 4 - o.right
    &&& row_used(m, o.up as int)
    &&& row_used(m, 3 - o.down)
    &&& col_used(m, o.left as int)
    &&& col_used(m, 3 - o.right)
    &&& cell_count(m) == 4
}

/// Every rotation table holds four cells of its kind's code, and its offset
/// record is exactly the mask's empty border.
pub proof fn lemma_table_shape(kind: TetroK, rotation: Clock)
    ensures
        shape_ok(table(kind, rotation).0, table(kind, rotation).1, kind.code()),
{
}

/// Where a piece stands on the grid and its mask in the current rotation.
#[derive(Debug, Clone, Copy)]
pub struct Playfield {
    pub coord: Coord,
    pub mat4: PieceMat4,
    pub offsets: Offset,
    pub size: Coord,
}

/// A falling piece.
#[derive(Debug, Clone, Copy)]
pub struct Tetromino {
    pub kind: TetroK,
    pub current_rotation: Clock,
    pub playfield: Playfield,
    pub in_game: bool,
    pub pristine: bool,
}

/// Occupied cells of a mask that come before (`row`, `col`) in row-major
/// order, each as (row, column, value).
pub open spec fn mask_cells(m: PieceMat4, row: int, col: int) -> Seq<(int, int, u8)>
    decreases row, col,
{
    if row <= 0 && col <= 0 {
        Seq::empty()
    } else if col <= 0 {
        mask_cells(m, row - 1, 4)
    } else {
        let prev = mask_cells(m, row, col - 1);
        if m@[row]@[col - 1] != 0 {
            prev.push((row, col - 1, m@[row]@[col - 1]))
        } else {
            prev
        }
    }
}

/// All occupied cells of a mask, in row-major order.
pub open spec fn piece_cells(m: PieceMat4) -> Seq<(int, int, u8)> {
    mask_cells(m, 3, 4)
}

/// `v` limited to the range from `lo` to `hi`.
pub open spec fn clamp(v: int, lo: int, hi: int) -> int {
    if v < lo {
        lo
    } else if v > hi {
        hi
    } else {
        v
    }
}

/// The column where a piece of width `size_x` stands when asked for column `value`.
pub fn playfield_x(value: i64, size_x: usize) -> (r: usize)
    requires
        size_x <= PLAYFIELD_W,
    ensures
        r == clamp(value as int, 0, PLAYFIELD_W - size_x),
{
    let max = PLAYFIELD_W - size_x;
    if value < 0 {
        0
    } else if value as u64 > max as u64 {
        max
    } else {
        value as usize
    }
}

/// The row where a piece of height `size_y` stands when asked for row `value`.
pub fn playfield_y(value: i64, size_y: usize) -> (r: usize)
    requires
        size_y <= PLAYFIELD_H,
    ensures
        r == clamp(value as int, 0, PLAYFIELD_H - size_y),
{
    let max = PLAYFIELD_H - size_y;
    if value < 0 {
        0
    } else if value as u64 > max as u64 {
        max
    } else {
        value as usize
    }
}

/// A mask cell moved right by `x0 - left` and down by `y0 - up`, as (column, row, value).
pub open spec fn place(e: (int, int, u8), x0: int, left: int, y0: int, up: int) -> (usize, usize, u8) {
    ((e.1 + x0 - left) as usize, (e.0 + y0 - up) as usize, e.2)
}

/// The occupied cells of a mask moved right by `x0 - left` and down by `y0 - up`,
/// in row-major order of the mask.
pub open spec fn placed(m: PieceMat4, x0: int, left: int, y0: int, up: int) -> Seq<(usize, usize, u8)> {
    piece_cells(m).map_values(|e: (int, int, u8)| place(e, x0, left, y0, up))
}

/// Every occupied cell of the mask, moved, lands on the grid.
pub open spec fn placeable(m: PieceMat4, x0: int, left: int, y0: int, up: int) -> bool {
    forall|r: int, c: int|
        0 <= r < 4 && 0 <= c < 4 && #[trigger] m@[r]@[c] != 0 ==> left <= c + x0 && c + x0 - left
            < PLAYFIELD_W && up <= r + y0 && r + y0 - up < PLAYFIELD_H
}

/// The occupied cells of a mask moved right by `x0 - left` and down by
/// `y0 - up`, as (column, row, value), in row-major order of the mask.
pub fn place_cells(m: &PieceMat4, x0: usize, left: usize, y0: usize, up: usize) -> (r: Vec<(usize, usize, u8)>)
    requires
        x0 <= PLAYFIELD_W,
        y0 <= PLAYFIELD_H,
        placeable(*m, x0 as int, left as int, y0 as int, up as int),
    ensures
        r@ == placed(*m, x0 as int, left as int, y0 as int, up as int),
{
    let mut result: Vec<(usize, usize, u8)> = Vec::new();
    let mut pos_y: usize = 0;
    while pos_y < 4
        invariant
            pos_y <= 4,
            x0 <= PLAYFIELD_W,
            y0 <= PLAYFIELD_H,
            placeable(*m, x0 as int, left as int, y0 as int, up as int),
            result@.len() == mask_cells(*m, pos_y as int, 0).len(),
            forall|j: int|
                0 <= j < result@.len() ==> result@[j] == place(
                    #[trigger] mask_cells(*m, pos_y as int, 0)[j],
                    x0 as int,
                    left as int,
                    y0 as int,
                    up as int,
                ),
        decreases 4 - pos_y,
    {
        let mut pos_x: usize = 0;
        while pos_x < 4
            invariant
                pos_y < 4,
                pos_x <= 4,
                x0 <= PLAYFIELD_W,
                y0 <= PLAYFIELD_H,
                placeable(*m, x0 as int, left as int, y0 as int, up as int),
                result@.len() == mask_cells(*m, pos_y as int, pos_x as int).len(),
                forall|j: int|
                    0 <= j < result@.len() ==> result@[j] == place(
                        #[trigger] mask_cells(*m, pos_y as int, pos_x as int)[j],
                        x0 as int,
                        left as int,
                        y0 as int,
                        up as int,
                    ),
            decreases 4 - pos_x,
        {
            let ghost prev = mask_cells(*m, pos_y as int, pos_x as int);
            let value = m[pos_y][pos_x];
            assert(m@[pos_y as int]@[pos_x as int] == value);
            if value != NONE_VALUE {
                let mapped_x = pos_x + x0 - left;
                let mapped_y = pos_y + y0 - up;
                result.push((mapped_x, mapped_y, value));
                assert(mask_cells(*m, pos_y as int, pos_x + 1) == prev.push(
                    (pos_y as int, pos_x as int, value),
                ));
            } else {
                assert(mask_cells(*m, pos_y as int, pos_x + 1) == prev);
            }
            pos_x += 1;
        }
        assert(mask_cells(*m, pos_y + 1, 0) == mask_cells(*m, pos_y as int, 4));
        pos_y += 1;
    }
    assert(result@ =~= placed(*m, x0 as int, left as int, y0 as int, up as int));
    result
}

impl Tetromino {
    /// The mask, border and size are those of the kind in its rotation.
    pub open spec fn shape_wf(&self) -> bool {
        &&& self.playfield.mat4 == table(self.kind, self.current_rotation).0
        &&& self.playfield.offsets == table(self.kind, self.current_rotation).1
        &&& self.playfield.size == extent_of(self.playfield.offsets)
    }

    /// The piece has the shape of its kind and rotation and lies inside the playfield.
    pub open spec fn wf(&self) -> bool {
        &&& self.shape_wf()
        &&& self.playfield.coord.x + self.playfield.size.x <= PLAYFIELD_W
        &&& self.playfield.coord.y + self.playfield.size.y <= PLAYFIELD_H
    }

    /// A mask cell relative to the top left corner of the piece's box, as (column, row).
    pub open spec fn rel_of(&self, e: (int, int, u8)) -> (usize, usize) {
        ((e.1 - self.playfield.offsets.left) as usize, (e.0 - self.playfield.offsets.up) as usize)
    }

    /// Cells of the mask relative to the top left corner of its box, as (column, row).
    pub open spec fn relative_cells(&self) -> Seq<(usize, usize)> {
        piece_cells(self.playfield.mat4).map_values(|e: (int, int, u8)| self.rel_of(e))
    }

    /// Grid cells that the piece covers, as (column, row, value).
    pub open spec fn current_cells(&self) -> Seq<(usize, usize, u8)> {
        placed(
            self.playfield.mat4,
            self.playfield.coord.x as int,
            self.playfield.offsets.left as int,
            self.playfield.coord.y as int,
            self.playfield.offsets.up as int,
        )
    }

    /// Cells of the piece in its columns with its box resting on the bottom
    /// row, as (column, row, value).
    pub open spec fn bottom_cells(&self) -> Seq<(usize, usize, u8)> {
        placed(
            self.playfield.mat4,
            self.playfield.coord.x as int,
            self.playfield.offsets.left as int,
            PLAYFIELD_H - PIECE_SIZE + self.playfield.offsets.down,
            0,
        )
    }
}

/// Each listed cell lies in the mask, is occupied, and carries the mask's value.
pub proof fn lemma_mask_cells(m: PieceMat4, row: int, col: int)
    requires
        0 <= row <= 3,
        0 <= col <= 4,
    ensures
        forall|j: int|
            0 <= j < mask_cells(m, row, col).len() ==> {
                let e = #[trigger] mask_cells(m, row, col)[j];
                &&& 0 <= e.0 <= row
                &&& 0 <= e.1 < 4
                &&& e.0 == row ==> e.1 < col
                &&& e.2 == m@[e.0]@[e.1]
                &&& e.2 != 0
            },
    decreases row, col,
{
    if row <= 0 && col <= 0 {
    } else if col <= 0 {
        lemma_mask_cells(m, row - 1, 4);
        assert(mask_cells(m, row, col) == mask_cells(m, row - 1, 4));
    } else {
        lemma_mask_cells(m, row, col - 1);
        let prev = mask_cells(m, row, col - 1);
        if m@[row]@[col - 1] != 0 {
            let e = (row, col - 1, m@[row]@[col - 1]);
            assert(mask_cells(m, row, col) == prev.push(e));
            assert forall|j: int| 0 <= j < prev.len() + 1 implies {
                let e = #[trigger] mask_cells(m, row, col)[j];
                &&& 0 <= e.0 <= row
                &&& 0 <= e.1 < 4
                &&& e.0 == row ==> e.1 < col
                &&& e.2 == m@[e.0]@[e.1]
                &&& e.2 != 0
            } by {
                if j < prev.len() {
                    assert(mask_cells(m, row, col)[j] == prev[j]);
                }
            }
        } else {
            assert(mask_cells(m, row, col) == prev);
        }
    }
}

/// A mask lists as many cells as it counts.
pub proof fn lemma_piece_cells_len(m: PieceMat4)
    ensures
        piece_cells(m).len() == cell_count(m),
{
    reveal_with_fuel(mask_cells, 20);
}

impl Tetromino {
    /// What a well-formed piece's cell lists hold: four cells inside the
    /// playfield (or inside the piece's box) that carry the kind's code.
    pub proof fn lemma_cells(&self)
        requires
            self.wf(),
        ensures
            self.relative_cells().len() == 4,
            self.current_cells().len() == 4,
            self.bottom_cells().len() == 4,
            forall|j: int|
                0 <= j < 4 ==> {
                    let c = #[trigger] self.relative_cells()[j];
                    c.0 < self.playfield.size.x && c.1 < self.playfield.size.y
                },
            forall|j: int|
                0 <= j < 4 ==> {
                    let c = #[trigger] self.current_cells()[j];
                    &&& c.0 < PLAYFIELD_W
                    &&& c.1 < PLAYFIELD_H
                    &&& c.0 == self.playfield.coord.x + self.relative_cells()[j].0
                    &&& c.1 == self.playfield.coord.y + self.relative_cells()[j].1
                    &&& c.2 == self.kind.code()
                },
            forall|j: int|
                0 <= j < 4 ==> {
                    let c = #[trigger] self.bottom_cells()[j];
                    &&& c.0 == self.current_cells()[j].0
                    &&& c.1 < PLAYFIELD_H
                    &&& c.2 == self.kind.code()
                },
    {
        let m = self.playfield.mat4;
        lemma_table_shape(self.kind, self.current_rotation);
        lemma_piece_cells_len(m);
        lemma_mask_cells(m, 3, 4);
        assert forall|j: int| 0 <= j < 4 implies {
            let c = #[trigger] self.relative_cells()[j];
            c.0 < self.playfield.size.x && c.1 < self.playfield.size.y
        } by {
            let e = piece_cells(m)[j];
            assert(m@[e.0]@[e.1] != 0);
        }
        assert forall|j: int| 0 <= j < 4 implies {
            let c = #[trigger] self.current_cells()[j];
            &&& c.0 < PLAYFIELD_W
            &&& c.1 < PLAYFIELD_H
            &&& c.0 == self.playfield.coord.x + self.relative_cells()[j].0
            &&& c.1 == self.playfield.coord.y + self.relative_cells()[j].1
            &&& c.2 == self.kind.code()
        } by {
            let e = piece_cells(m)[j];
            assert(m@[e.0]@[e.1] != 0);
        }
        assert forall|j: int| 0 <= j < 4 implies {
            let c = #[trigger] self.bottom_cells()[j];
            &&& c.0 == self.current_cells()[j].0
            &&& c.1 < PLAYFIELD_H
            &&& c.2 == self.kind.code()
        } by {
            let e = piece_cells(m)[j];
            assert(m@[e.0]@[e.1] != 0);
        }
    }
}

impl Tetromino {
    /// A new piece of `kind` at the top of the playfield, centred, in its
    /// first rotation.
    pub fn from(kind: TetroK) -> (r: Tetromino)
        ensures
            r.wf(),
            r.kind == kind,
            r.current_rotation == Clock::P12,
            r.playfield.coord == (Coord { x: PLAYFIELD_W / 2, y: 0 }),
            r.in_game,
            r.pristine,
    {
        let rotation = Clock::P12;
        let (mat4, offsets) = mat4_of(kind, rotation);
        let size = kind.size(rotation);
        proof {
            lemma_table_shape(kind, rotation);
        }
        let coord = Coord {
            x: playfield_x((PLAYFIELD_W / 2) as i64, size.x),
            y: playfield_y(0, size.y),
        };
        Tetromino {
            kind,
            current_rotation: rotation,
            playfield: Playfield { coord, mat4, offsets, size },
            in_game: true,
            pristine: true,
        }
    }

    /// Sets the mask, border and size to those of the current rotation; the
    /// position is kept.
    fn update_playfield_props(&mut self)
        ensures
            final(self).shape_wf(),
            final(self).kind == old(self).kind,
            final(self).current_rotation == old(self).current_rotation,
            final(self).playfield.coord == old(self).playfield.coord,
            final(self).in_game == old(self).in_game,
            final(self).pristine == old(self).pristine,
    {
        let (piece, offsets) = mat4_of(self.kind, self.current_rotation);
        let size = self.kind.size(self.current_rotation);
        self.playfield = Playfield { coord: self.playfield.coord, mat4: piece, offsets, size };
    }

    /// Moves the piece to the column and row asked for, held inside the playfield.
    pub fn update_positions(&mut self, x: i64, y: i64)
        requires
            old(self).shape_wf(),
        ensures
            final(self).wf(),
            final(self).playfield.coord.x == clamp(
                x as int,
                0,
                PLAYFIELD_W - old(self).playfield.size.x,
            ),
            final(self).playfield.coord.y == clamp(
                y as int,
                0,
                PLAYFIELD_H - old(self).playfield.size.y,
            ),
            final(self).kind == old(self).kind,
            final(self).current_rotation == old(self).current_rotation,
            final(self).playfield.mat4 == old(self).playfield.mat4,
            final(self).playfield.offsets == old(self).playfield.offsets,
            final(self).playfield.size == old(self).playfield.size,
            final(self).in_game == old(self).in_game,
            final(self).pristine == old(self).pristine,
    {
        proof {
            lemma_table_shape(self.kind, self.current_rotation);
        }
        self.playfield.coord.x = playfield_x(x, self.playfield.size.x);
        self.playfield.coord.y = playfield_y(y, self.playfield.size.y);
    }

    /// Turns the piece a quarter turn clockwise, then places it at the column
    /// and row asked for, held inside the playfield.
    pub fn rotate(&mut self, x: i64, y: i64)
        ensures
            final(self).wf(),
            final(self).kind == old(self).kind,
            final(self).current_rotation == old(self).current_rotation.next(),
            final(self).playfield.coord.x == clamp(
                x as int,
                0,
                PLAYFIELD_W - final(self).playfield.size.x,
            ),
            final(self).playfield.coord.y == clamp(
                y as int,
                0,
                PLAYFIELD_H - final(self).playfield.size.y,
            ),
            final(self).in_game == old(self).in_game,
            final(self).pristine == old(self).pristine,
    {
        self.current_rotation = match self.current_rotation {
            Clock::P12 => Clock::P3,
            Clock::P3 => Clock::P6,
            Clock::P6 => Clock::P9,
            Clock::P9 => Clock::P12,
        };
        self.update_playfield_props();
        self.update_positions(x, y);
    }

    /// The cells of the mask relative to the top left corner of the piece's
    /// box, as (column, row), in row-major order.
    pub fn process_relative_positions(&self) -> (r: Vec<(usize, usize)>)
        requires
            self.wf(),
        ensures
            r@ == self.relative_cells(),
    {
        let ghost m = self.playfield.mat4;
        proof {
            lemma_table_shape(self.kind, self.current_rotation);
        }
        let mut result: Vec<(usize, usize)> = Vec::new();
        let mut pos_y: usize = 0;
        while pos_y < 4
            invariant
                pos_y <= 4,
                self.wf(),
                m == self.playfield.mat4,
                result@.len() == mask_cells(m, pos_y as int, 0).len(),
                forall|j: int|
                    0 <= j < result@.len() ==> result@[j] == self.rel_of(
                        #[trigger] mask_cells(m, pos_y as int, 0)[j],
                    ),
            decreases 4 - pos_y,
        {
            let mut pos_x: usize = 0;
            while pos_x < 4
                invariant
                    pos_y < 4,
                    pos_x <= 4,
                    self.wf(),
                    m == self.playfield.mat4,
                    result@.len() == mask_cells(m, pos_y as int, pos_x as int).len(),
                    forall|j: int|
                        0 <= j < result@.len() ==> result@[j] == self.rel_of(
                            #[trigger] mask_cells(m, pos_y as int, pos_x as int)[j],
                        ),
                decreases 4 - pos_x,
            {
                let ghost prev = mask_cells(m, pos_y as int, pos_x as int);
                let value = self.playfield.mat4[pos_y][pos_x];
                if value != NONE_VALUE {
                    let e = (pos_x - self.playfield.offsets.left, pos_y - self.playfield.offsets.up);
                    result.push(e);
                    assert(mask_cells(m, pos_y as int, pos_x + 1) == prev.push(
                        (pos_y as int, pos_x as int, value),
                    ));
                } else {
                    assert(mask_cells(m, pos_y as int, pos_x + 1) == prev);
                }
                pos_x += 1;
            }
            assert(mask_cells(m, pos_y + 1, 0) == mask_cells(m, pos_y as int, 4));
            pos_y += 1;
        }
        assert(result@ =~= self.relative_cells());
        result
    }

    /// The four cells of the mask relative to the top left corner of the
    /// piece's box, as (column, row), in row-major order.
    pub fn relative_positions(&self) -> (r: [(usize, usize); 4])
        requires
            self.wf(),
        ensures
            r@ == self.relative_cells(),
    {
        proof {
            self.lemma_cells();
        }
        let cells = self.process_relative_positions();
        let r = [cells[0], cells[1], cells[2], cells[3]];
        assert(r@ =~= self.relative_cells());
        r
    }

    /// The grid cells that the piece covers, as (column, row, value), in
    /// row-major order of its mask.
    pub fn process_current_positions(&self) -> (r: Vec<(usize, usize, u8)>)
        requires
            self.wf(),
        ensures
            r@ == self.current_cells(),
    {
        proof {
            lemma_table_shape(self.kind, self.current_rotation);
        }
        place_cells(
            &self.playfield.mat4,
            self.playfield.coord.x,
            self.playfield.offsets.left,
            self.playfield.coord.y,
            self.playfield.offsets.up,
        )
    }

    /// The cells of the piece in its columns with its box resting on the
    /// bottom row, as (column, row, value), in row-major order of its mask.
    pub fn process_with_runtime(&self) -> (r: Vec<(usize, usize, u8)>)
        requires
            self.wf(),
        ensures
            r@ == self.bottom_cells(),
    {
        proof {
            lemma_table_shape(self.kind, self.current_rotation);
        }
        place_cells(
            &self.playfield.mat4,
            self.playfield.coord.x,
            self.playfield.offsets.left,
            (PLAYFIELD_H - PIECE_SIZE) + self.playfield.offsets.down,
            0,
        )
    }
}

/// Mask and empty border of a kind in a rotation.
pub fn mat4_of(kind: TetroK, rotation: Clock) -> (r: (PieceMat4, Offset))
    ensures
        r == table(kind, rotation),
{
    match kind {
        TetroK::I => TetrioI::rotated(rotation),
        TetroK::J => TetrioJ::rotated(rotation),
        TetroK::L => TetrioL::rotated(rotation),
        TetroK::O => TetrioO::rotated(rotation),
        TetroK::S => TetrioS::rotated(rotation),
        TetroK::T => TetrioT::rotated(rotation),
        TetroK::Z => TetrioZ::rotated(rotation),
    }
}

} // verus!
