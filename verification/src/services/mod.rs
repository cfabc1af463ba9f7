//! Hashing and duplicate detection.

pub mod cluster;
pub mod duplicate;
pub mod hasher;
pub mod indices;
pub mod laws;
pub mod manifest;
pub mod partition;
pub mod paths;
pub mod reconcile;
