//! Turn-order tracker for a turn-based tabletop game.
//!
//! The library keeps a roster of characters sorted by descending initiative
//! score, moves a turn cursor circularly through that order, and applies
//! hit-point mutations (damage with temporary-hit-point absorption, clamped
//! healing, temporary-hit-point grants) to characters looked up by name.
//! Import and export work on plain record values; reading and writing files
//! is left to the surrounding program.

pub mod character;
pub mod records;
pub mod roster;
