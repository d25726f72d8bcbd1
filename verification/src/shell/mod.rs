//! What sits between platform events and the game: staged input, pads, and
//! shortcut edges.

pub mod ids;
pub mod levels;
pub mod pads;
pub mod shortcuts;
pub mod staging;
pub mod store;

pub use levels::{apply_scheduler_levels, PolledLevels};
pub use pads::{PadBank, PadBridge, PadEvent, PadRoster};
pub use shortcuts::{shared_edges, take, ShortcutEdges};
pub use staging::{KeyPress, Staging};
