//! Verified core of the `watt` terminal system monitor: sample history,
//! process ordering and filtering, keyboard navigation, byte formatting
//! and the decoding rules for the counters that the collectors read.

pub mod collect;
pub mod config;
pub mod profile;
pub mod text;
pub mod ui;
