use tetris_troll::constants::{PLAYFIELD_H, PLAYFIELD_W};
use tetris_troll::shared::Mat4x4;
use tetris_troll::tetrio_j::TetrioJ;
use tetris_troll::tetrio_l::TetrioL;
use tetris_troll::tetrio_s::TetrioS;
use tetris_troll::tetromino::{
    mat4_of, playfield_x, playfield_y, Clock, Coord, Offset, TetroK, Tetromino,
};

const KINDS: [TetroK; 7] = [
    TetroK::I,
    TetroK::J,
    TetroK::L,
    TetroK::O,
    TetroK::S,
    TetroK::T,
    TetroK::Z,
];
const ROTATIONS: [Clock; 4] = [Clock::P12, Clock::P3, Clock::P6, Clock::P9];

#[test]
fn kinds_come_from_their_codes() {
    for code in 1u8..=7 {
        assert_eq!(TetroK::from(code).value(), code);
    }
    assert_eq!(TetroK::from(2), TetroK::J);
    assert_eq!(TetroK::from(7), TetroK::Z);
}

#[test]
fn j_table_in_first_rotation() {
    let t = Tetromino::from(TetroK::J);
    let (mask, offsets) = TetrioJ::mat4(&t);
    assert_eq!(mask, [[0, 0, 0, 0], [0, 0, 2, 0], [0, 0, 2, 0], [0, 2, 2, 0]]);
    assert_eq!(offsets, Offset { up: 1, down: 0, left: 1, right: 1 });
}

#[test]
fn l_and_s_tables_after_a_turn() {
    let mut t = Tetromino::from(TetroK::L);
    t.rotate(0, 0);
    let (mask, offsets) = TetrioL::mat4(&t);
    assert_eq!(mask, [[0, 0, 0, 0], [3, 3, 3, 0], [3, 0, 0, 0], [0, 0, 0, 0]]);
    assert_eq!(offsets, Offset { up: 1, down: 1, left: 0, right: 1 });
    let mut s = Tetromino::from(TetroK::S);
    s.rotate(0, 0);
    let (mask, offsets) = TetrioS::mat4(&s);
    assert_eq!(mask, [[0, 0, 0, 0], [0, 5, 0, 0], [0, 5, 5, 0], [0, 0, 5, 0]]);
    assert_eq!(offsets, Offset { up: 1, down: 0, left: 1, right: 1 });
}

#[test]
fn sizes_of_pieces() {
    assert_eq!(TetroK::J.size(Clock::P12), Coord { x: 2, y: 3 });
    assert_eq!(TetroK::L.size(Clock::P3), Coord { x: 3, y: 2 });
    assert_eq!(TetroK::S.size(Clock::P12), Coord { x: 3, y: 2 });
    assert_eq!(TetroK::I.size(Clock::P12), Coord { x: 1, y: 4 });
    assert_eq!(TetroK::I.size(Clock::P3), Coord { x: 4, y: 1 });
    assert_eq!(TetroK::O.size(Clock::P9), Coord { x: 2, y: 2 });
}

#[test]
fn every_table_has_four_cells_inside_its_border() {
    for kind in KINDS {
        for rotation in ROTATIONS {
            let (mask, o) = mat4_of(kind, rotation);
            let mut cells = 0;
            for r in 0..4 {
                for c in 0..4 {
                    let v = mask[r][c];
                    if v != 0 {
                        cells += 1;
                        assert_eq!(v, kind.value());
                        assert!(o.up <= r && r < 4 - o.down);
                        assert!(o.left <= c && c < 4 - o.right);
                    }
                }
            }
            assert_eq!(cells, 4);
            let size = kind.size(rotation);
            assert_eq!(size, Coord { x: 4 - o.left - o.right, y: 4 - o.up - o.down });
        }
    }
}

#[test]
fn new_piece_spawns_centred_at_the_top() {
    let t = Tetromino::from(TetroK::L);
    assert_eq!(t.playfield.coord, Coord { x: 5, y: 0 });
    assert_eq!(t.current_rotation, Clock::P12);
    assert_eq!(t.playfield.size, Coord { x: 2, y: 3 });
    assert!(t.in_game);
    assert!(t.pristine);
}

#[test]
fn cells_of_an_l_piece() {
    let t = Tetromino::from(TetroK::L);
    assert_eq!(t.process_relative_positions(), vec![(0, 0), (0, 1), (0, 2), (1, 2)]);
    assert_eq!(t.relative_positions(), [(0, 0), (0, 1), (0, 2), (1, 2)]);
    assert_eq!(
        t.process_current_positions(),
        vec![(5, 0, 3), (5, 1, 3), (5, 2, 3), (6, 2, 3)]
    );
    assert_eq!(
        t.process_with_runtime(),
        vec![(5, 21, 3), (5, 22, 3), (5, 23, 3), (6, 23, 3)]
    );
}

#[test]
fn rotation_turns_and_holds_the_piece_inside() {
    let mut t = Tetromino::from(TetroK::L);
    t.rotate(9, 30);
    assert_eq!(t.current_rotation, Clock::P3);
    assert_eq!(t.playfield.size, Coord { x: 3, y: 2 });
    assert_eq!(t.playfield.coord, Coord { x: 7, y: 22 });
    t.rotate(0, 0);
    t.rotate(0, 0);
    t.rotate(0, 0);
    assert_eq!(t.current_rotation, Clock::P12);
}

#[test]
fn positions_are_clamped_to_the_playfield() {
    assert_eq!(playfield_x(-3, 2), 0);
    assert_eq!(playfield_x(20, 2), 8);
    assert_eq!(playfield_x(4, 2), 4);
    assert_eq!(playfield_y(30, 3), 21);
    assert_eq!(playfield_y(-1, 3), 0);
    assert_eq!(playfield_x(i64::MAX, PLAYFIELD_W), 0);
    assert_eq!(playfield_y(7, PLAYFIELD_H), 0);
    let mut t = Tetromino::from(TetroK::I);
    t.update_positions(-5, 100);
    assert_eq!(t.playfield.coord, Coord { x: 0, y: 20 });
}

#[test]
fn mask_walk_is_row_by_row() {
    let t = Tetromino::from(TetroK::L);
    let mut walk = Mat4x4::iter(&t);
    let mut items = vec![];
    while let Some(item) = walk.next() {
        items.push(item);
    }
    assert_eq!(items.len(), 16);
    assert_eq!(items[0], (0, 0, 0));
    assert_eq!(items[5], (1, 1, 3));
    assert_eq!(items[14], (2, 3, 3));
    assert_eq!(walk.next(), None);
}
