use tetris_troll::constants::{DEBUG_GROUND, H, HOLE_VALUE, PLAYFIELD_H, PLAYFIELD_W, PREVIEW_VALUE};
use tetris_troll::legal::{left_move, right_move, test_collision_at, PieceInput};
use tetris_troll::shared::{Matrix, X};
use tetris_troll::tetromino::{Clock, Coord, TetroK, Tetromino};
use tetris_troll::universe::Universe;
use tetris_troll::world::World;
use std::ops::ControlFlow;

fn filled(grid: &[[u8; PLAYFIELD_H]; PLAYFIELD_W]) -> usize {
    grid.iter().flat_map(|c| c.iter()).filter(|v| **v != 0).count()
}

fn l_at(x: i64, y: i64) -> Tetromino {
    let mut t = Tetromino::from(TetroK::L);
    t.update_positions(x, y);
    t
}

#[test]
fn new_world_has_ground_on_the_bottom_row() {
    let w = World::new();
    assert_eq!(filled(&w.game), 0);
    for x in 0..PLAYFIELD_W {
        assert_eq!(w.floor[x][H], DEBUG_GROUND);
        assert_eq!(w.floor[x][H - 1], 0);
    }
    assert_eq!(filled(&w.floor), PLAYFIELD_W);
}

#[test]
fn paint_swaps_one_code_for_another() {
    let mut w = World::new();
    w.floor[2][3] = PREVIEW_VALUE;
    w.floor[7][9] = PREVIEW_VALUE;
    w.filter_and_paint(PREVIEW_VALUE, 1);
    assert_eq!(w.floor[2][3], 1);
    assert_eq!(w.floor[7][9], 1);
    assert_eq!(w.floor[0][H], DEBUG_GROUND);
    w.floor[4][4] = PREVIEW_VALUE;
    w.debug_remove_helpers();
    assert_eq!(w.floor[4][4], 0);
    assert_eq!(w.floor[2][3], 1);
}

#[test]
fn runtime_merge_stacks_pieces() {
    let mut w = World::new();
    let t = l_at(5, 0);
    w.add_with_runtime(&t);
    assert_eq!(w.game[5][23], 3);
    assert_eq!(w.game[6][23], 3);
    assert_eq!(w.game[5][21], 3);
    assert_eq!(filled(&w.game), 4);
    w.add_with_runtime(&t);
    assert_eq!(w.game[5][18], 3);
    assert_eq!(w.game[5][20], 3);
    assert_eq!(w.game[6][20], 3);
    assert_eq!(filled(&w.game), 8);
    assert_eq!(w.floor, World::new().floor);
}

#[test]
fn duplicated_merge_matches_runtime_merge() {
    let mut a = World::new();
    let mut b = World::new();
    let t = l_at(2, 0);
    let mut s = Tetromino::from(TetroK::S);
    s.update_positions(1, 0);
    for piece in [t, s, t] {
        a.add_with_runtime(&piece);
        b.add_with_duplication(&piece);
    }
    assert_eq!(a.game, b.game);
    assert_eq!(filled(&a.game), 12);
}

#[test]
fn generic_merge_raises_the_piece_off_the_ground() {
    let mut w = World::new();
    let mut t = l_at(5, 21);
    assert!(w.touches_ground(&t));
    assert!(w.can_merge(&t));
    w.merge(&mut t);
    assert!(!t.in_game);
    assert_eq!(w.game[5][20], 3);
    assert_eq!(w.game[5][22], 3);
    assert_eq!(w.game[6][22], 3);
    assert_eq!(filled(&w.game), 4);
    assert_eq!(w.floor[5][20], DEBUG_GROUND);
    assert_eq!(w.floor[6][22], DEBUG_GROUND);
    assert_eq!(w.floor[6][21], 0);
    assert_eq!(filled(&w.floor), PLAYFIELD_W + 4);
}

#[test]
fn generic_merge_turns_enclosed_cells_into_holes() {
    let mut w = World::new();
    w.floor[0][21] = DEBUG_GROUND;
    w.floor[1][22] = DEBUG_GROUND;
    let t = l_at(5, 21);
    w.add_with_generic(&t);
    assert_eq!(w.floor[0][22], HOLE_VALUE);
    assert_eq!(w.floor[0][20], 0);
    assert_eq!(w.floor[1][21], 0);
}

#[test]
fn piece_at_the_top_cannot_be_merged() {
    let w = World::new();
    let t = l_at(5, 0);
    assert!(!w.touches_ground(&t));
    assert!(!w.can_merge(&t));
}

fn walled() -> World {
    let mut w = World::new();
    for y in 0..PLAYFIELD_H {
        w.floor[3][y] = DEBUG_GROUND;
    }
    w
}

fn check_walled_fill(w: &World) {
    assert_eq!(w.floor[0][0], 2);
    assert_eq!(w.floor[2][22], 2);
    assert_eq!(w.floor[1][1], 2);
    assert_eq!(w.floor[4][0], 0);
    assert_eq!(w.floor[9][22], 0);
    assert_eq!(w.floor[3][5], DEBUG_GROUND);
    assert_eq!(w.floor[0][23], DEBUG_GROUND);
}

#[test]
fn breadth_first_fill_stops_at_walls() {
    let mut w = walled();
    w.rusty_flood_fill(1, 1, 0, 2);
    check_walled_fill(&w);
    w.rusty_flood_fill(1, 1, 2, 0);
    assert_eq!(w.floor, walled().floor);
}

#[test]
fn stack_fill_stops_at_walls() {
    let mut w = walled();
    w.iter_flood_fill(1, 1, 0, 2);
    check_walled_fill(&w);
}

#[test]
fn recursive_fill_stops_at_walls() {
    let mut w = walled();
    w.recur_flood_fill(1, 1, 0, 2);
    check_walled_fill(&w);
    let before = w.floor;
    w.recur_flood_fill(-1, 0, 2, 5);
    w.recur_flood_fill(10, 0, 2, 5);
    assert_eq!(w.floor, before);
}

#[test]
fn fill_from_a_cell_of_another_code_changes_nothing() {
    let mut w = walled();
    w.rusty_flood_fill(3, 3, 0, 2);
    w.iter_flood_fill(0, 23, 0, 2);
    assert_eq!(w.floor, walled().floor);
}

#[test]
fn corner_fill_reaches_the_open_space() {
    let mut w = walled();
    w.flood_from_corner(0, 2);
    check_walled_fill(&w);
    w.flood_from_corner(2, 0);
    assert_eq!(w.floor, walled().floor);
}

#[test]
fn grid_walk_is_row_by_row() {
    let w = World::new();
    let mut walk = Matrix::iter(w.floor);
    assert_eq!(walk.next(), Some((0, 0, 0)));
    let mut count = 1;
    let mut last = (0, 0, 0);
    while let Some(item) = walk.next() {
        count += 1;
        if count == 11 {
            assert_eq!(item, (0, 1, 0));
        }
        last = item;
    }
    assert_eq!(count, 240);
    assert_eq!(last, (9, 23, DEBUG_GROUND));
}

#[test]
fn universe_drops_from_the_left_edge() {
    let mut u = Universe::new();
    let t = Tetromino::from(TetroK::L);
    u.add(&t);
    assert_eq!(u.cell(1, 23), 3);
    assert_eq!(u.cell(2, 23), 3);
    assert_eq!(u.cell(1, 21), 3);
    assert_eq!(u.cell(0, 23), 0);
    assert_eq!(u.cell(5, 23), 0);
    let (piece, offsets) = tetris_troll::tetrio_l::TetrioL::mat4(&t);
    assert!(u.collided_with_bottom(piece, &offsets, &0));
    assert!(!u.collided_with_bottom(piece, &offsets, &3));
}

#[test]
fn collision_test_reports_the_first_blocked_cell() {
    let w = World::new();
    let pos = [(0, 0), (0, 1), (0, 2), (1, 2)];
    assert_eq!(test_collision_at(pos, 0, 21, &w), ControlFlow::Break([(0, 2), (0, 21)]));
    assert_eq!(test_collision_at(pos, 0, 0, &w), ControlFlow::Continue(()));
    let mut p = World::new();
    p.floor[1][5] = PREVIEW_VALUE;
    assert_eq!(test_collision_at(pos, 0, 3, &p), ControlFlow::Continue(()));
}

#[test]
fn slides_check_each_column_on_the_way() {
    let mut w = World::new();
    w.floor[6][12] = DEBUG_GROUND;
    let pos = [(0, 0), (0, 1), (0, 2), (1, 2)];
    let cols = vec![(8, X::Right), (1, X::Left)];
    assert_eq!(right_move(pos, &cols, 4, 10, &w), ControlFlow::Break(()));
    assert_eq!(left_move(pos, &cols, 4, 10, &w), ControlFlow::Continue(()));
    assert_eq!(right_move(pos, &cols, 4, 5, &w), ControlFlow::Continue(()));
}

#[test]
fn legal_move_to_an_open_column() {
    let mut w = World::new();
    let mut t = l_at(5, 0);
    assert!(t.hit_legal_move(2, 20, &mut w));
    assert_eq!(w.floor[0][20], PREVIEW_VALUE);
    assert_eq!(w.floor[9][22], PREVIEW_VALUE);
    assert_eq!(w.floor[9][20], 0);
    assert_eq!(w.floor[4][23], DEBUG_GROUND);
    assert_eq!(t.playfield.coord, Coord { x: 5, y: 0 });
}

#[test]
fn legal_move_through_a_shelf_fails() {
    let mut w = World::new();
    for x in 0..PLAYFIELD_W {
        w.floor[x][10] = DEBUG_GROUND;
    }
    let before = w.floor;
    let mut t = l_at(5, 0);
    assert!(!t.hit_legal_move(2, 15, &mut w));
    assert_eq!(w.floor, before);
}

#[test]
fn legal_move_slides_along_the_landing_row() {
    let mut w = World::new();
    for y in 1..12 {
        w.floor[2][y] = DEBUG_GROUND;
        w.floor[3][y] = DEBUG_GROUND;
    }
    let mut t = l_at(5, 0);
    assert!(t.hit_legal_move(2, 15, &mut w));
    assert_eq!(w.floor[2][15], 0);
    assert_eq!(w.floor[5][15], PREVIEW_VALUE);
}

#[test]
fn pick_moves_the_piece_and_clears_the_old_preview() {
    let mut w = World::new();
    w.floor[9][0] = PREVIEW_VALUE;
    let mut t = l_at(5, 0);
    assert!(t.pick_target(&mut w, 2, 20));
    assert!(!t.pristine);
    assert_eq!(t.playfield.coord, Coord { x: 2, y: 20 });
    assert_eq!(w.floor[9][0], 0);
    assert_eq!(w.floor[0][20], PREVIEW_VALUE);
}

#[test]
fn slide_steps_back_from_a_filled_cell() {
    let mut w = World::new();
    w.floor[7][2] = DEBUG_GROUND;
    let mut t = l_at(5, 0);
    assert!(t.slide(&w, 6, 0, 5));
    assert_eq!(t.playfield.coord, Coord { x: 5, y: 0 });
    assert!(!t.slide(&w, 4, 0, 5));
    assert_eq!(t.playfield.coord, Coord { x: 4, y: 0 });
    assert!(!t.slide(&w, 40, 0, 39));
    assert_eq!(t.playfield.coord, Coord { x: 8, y: 0 });
}

#[test]
fn frame_inputs_drive_the_piece() {
    let mut w = World::new();
    let mut t = l_at(5, 0);
    assert!(!t.update(&mut w, PieceInput::Touch));
    assert!(!t.pristine);
    assert!(!t.update(&mut w, PieceInput::Place { x: 3, y: 4 }));
    assert_eq!(t.playfield.coord, Coord { x: 3, y: 4 });
    assert!(!t.update(&mut w, PieceInput::Rotate { x: 3, y: 4 }));
    assert_eq!(t.current_rotation, Clock::P3);
    w.floor[6][4] = DEBUG_GROUND;
    assert!(t.update(&mut w, PieceInput::Shift { x: 4, y: 4, back_x: 3 }));
    assert_eq!(t.playfield.coord, Coord { x: 3, y: 4 });
    assert!(!t.update(&mut w, PieceInput::Shift { x: 2, y: 4, back_x: 3 }));
    assert_eq!(t.playfield.coord, Coord { x: 2, y: 4 });
    assert!(t.in_game);
    assert!(!t.update(&mut w, PieceInput::Leave));
    assert!(!t.in_game);
}

#[test]
fn frame_inputs_mark_open_space_and_holes() {
    let mut w = walled();
    w.floor[9][0] = DEBUG_GROUND;
    w.floor[8][1] = DEBUG_GROUND;
    w.floor[9][1] = DEBUG_GROUND;
    let mut t = l_at(5, 0);
    t.update(&mut w, PieceInput::FillOpen);
    assert_eq!(w.floor[0][0], 2);
    assert_eq!(w.floor[4][4], 0);
    t.update(&mut w, PieceInput::MarkHoles);
    assert_eq!(w.floor[4][4], HOLE_VALUE);
    assert_eq!(w.floor[8][0], HOLE_VALUE);
    t.update(&mut w, PieceInput::ClearOpen);
    assert_eq!(w.floor[0][0], 0);
    assert_eq!(w.floor[2][22], 0);
    assert_eq!(w.floor[4][4], HOLE_VALUE);
    assert!(t.update(&mut w, PieceInput::Pick { x: 0, y: 20 }));
    assert_eq!(t.playfield.coord, Coord { x: 0, y: 20 });
}

#[test]
fn merges_add_exactly_four_cells() {
    let mut w = World::new();
    let mut kinds = [TetroK::I, TetroK::O, TetroK::T, TetroK::Z, TetroK::J].into_iter();
    let mut count = 0;
    while let Some(kind) = kinds.next() {
        let mut t = Tetromino::from(kind);
        t.update_positions(count as i64 % 7, 0);
        let before = filled(&w.game);
        w.add_with_runtime(&t);
        assert_eq!(filled(&w.game), before + 4);
        count += 1;
    }
    assert_eq!(filled(&w.game), 20);
}
