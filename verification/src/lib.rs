//! Duplicate detection for media files and the transaction that erases the
//! redundant copies.
//!
//! The library never touches the file system. Callers measure, read and move
//! files; the library decides what to measure, which files belong together,
//! and which operation comes next.

pub mod commands;
pub mod error;
pub mod services;
