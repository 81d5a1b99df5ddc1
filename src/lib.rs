//! Grid logic of a falling-block puzzle game: piece rotation tables, the
//! playfield grids, collision and landing of pieces, flood fills that tell
//! playable space from enclosed holes, and the game's screen state machine.
pub mod constants;
pub mod tetrio_i;
pub mod tetrio_j;
pub mod tetrio_l;
pub mod tetrio_o;
pub mod tetrio_s;
pub mod tetrio_t;
pub mod tetrio_z;
pub mod tetromino;
pub mod shared;
pub mod manager;
pub mod grid;
pub mod game_configs;
pub mod world;
pub mod flood;
pub mod legal;
pub mod universe;
pub mod laws;
