//! Removal of duplicate files from one directory, as a verified decision core.
//!
//! The library never touches the disk. It names each file by its position in
//! the directory listing, tells its caller which read or removal to perform
//! next, and takes the outcome back as an event.

pub mod engine;
pub mod index;
pub mod key;
pub mod laws;
pub mod run;

pub use engine::{same_bytes, Action, Deduper, Event, Outcome, Phase, State};
pub use index::{capacity_hint, map_from_iter, Index, CAPACITY_LIMIT};
pub use key::{key_width, read_id, ScanError};
