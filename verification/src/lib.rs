//! Storage rules for a local-first note-board application: board identifiers,
//! the board index and its reconciliation with the directories on disk, the
//! trash lifecycle, asset naming, and the safety check for link previews.

pub mod assets;
pub mod board_id;
pub mod chat;
pub mod clock;
pub mod error;
pub mod index;
pub mod lifecycle;
pub mod link;
pub mod model;
pub mod net;
pub mod new_id;
pub mod paths;
pub mod reconcile;
pub mod scan;
pub mod store;
pub mod text;
