//! An interactive Conway's Game of Life engine on an unbounded integer grid.
//!
//! The crate is split into the sparse colony and its transition rule
//! (`colony`), sprite selection for a rendering host (`sprites`), and the
//! interaction state machine that owns the session state (`game`).

use vstd::prelude::*;

pub mod colony;
pub mod game;
pub mod sprites;

pub use colony::Cell;
pub use colony::Colony;
pub use colony::generation;
pub use colony::neighbour_counts;
pub use colony::neighbours;
pub use colony::neighbours_nesw;
pub use colony::toggle;
pub use game::Command;
pub use game::HostRequest;
pub use game::LifeGame;
pub use game::Speed;
pub use sprites::SpriteId;
pub use sprites::button_sprite;
pub use sprites::cell_sprite;

verus! {

} // verus!
