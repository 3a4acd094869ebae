//! AutoStash: a verified core for a background file-versioning daemon.
//!
//! The library captures line-level differences between successive versions
//! of watched text files, keeps them in an append-only change log with
//! per-file undo/redo cursors, and materialises views (reconstructed file
//! contents) filtered by a time frame. The surrounding process (filesystem
//! watching, channels, terminal UI) lives outside the library and feeds it
//! plain values.

pub mod config;
pub mod diff_engine;
pub mod handler;
pub mod laws;
pub mod record;
pub mod store;
pub mod replay;
pub mod time_frame;
pub mod ui_state;
