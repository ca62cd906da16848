//! Simulation core of a sharded Tetris playfield: shapes, the falling piece,
//! the playfield, the per-game state machine and the shard coordinator.
pub mod geometry;
pub mod shape;
pub mod block;
pub mod grid;
pub mod game;
pub mod shard;
pub mod front;

pub use geometry::{Point, Rect};
pub use shape::{BlockType, Color, COLUMNS, DEFAULT_GRAVITY, ROWS};
pub use block::Block;
pub use grid::Grid;
pub use game::{BlockEvent, Tetris, Ticker};
pub use front::{EventMgr, broadcast_user_events, gravity_events, moves_only};
pub use shard::{
    AppEvent, Msg, Worker, init_tetris, init_worker, on_event, tick_event, user_event, worker_guard,
};
