//! Batch-renaming engine for media files.
//!
//! Files inside a directory tree are renamed to carry their parent
//! directory's name and a zero-padded index that follows the order of
//! their last-modification times.  The engine here is pure: it parses
//! the recognised-extension list, plans the renames for each directory
//! and composes the result and failure-report texts.  A thin unverified
//! shell performs the actual filesystem calls and drives the engine.

pub mod driver;
pub mod errors;
pub mod filetypes;
pub mod laws;
pub mod padding;
pub mod renamer;
pub mod report;
pub mod text;
pub mod walker;
