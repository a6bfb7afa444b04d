//! A terminal Minesweeper game core: the board model, mine placement,
//! adjacency counts, flood-fill reveal, first-dig safety relocation,
//! win/loss detection, and the cursor/viewport state machine.
//!
//! The caller owns the device I/O: it feeds structured input events in and
//! receives a [`view::Status`] and, on demand, a display string back.

pub mod board;
pub mod game;
pub mod grid;
pub mod render;
pub mod sweep;
pub mod tile;
pub mod view;

pub use game::Game;
pub use tile::Tile;
pub use tile::TileState;
pub use tile::TileType;
pub use view::State;
pub use view::StateUpdate;
pub use view::Status;
