//! The three commands: scan, clean and erase.

pub mod atomicity;
pub mod clean;
pub mod erase;
pub mod scan;
