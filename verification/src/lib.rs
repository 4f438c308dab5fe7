//! Rename files in bulk by editing their names as plain text.
//!
//! This crate is the rename transaction engine behind the tool: given an
//! ordered list of (path before, path after) pairs it drives the renames
//! with conflict detection, interactive failure recovery, and an
//! append-only ledger of what was actually changed.  Path text is carried
//! as raw bytes; everything that touches the real filesystem, the
//! terminal or the editor lives outside this crate and only reports
//! events back to the engine.

pub mod action_history;
pub mod args;
pub mod codec;
pub mod engine;
pub mod fs_model;
