//! A canonical station master for JMA seismic intensity observation points.
//!
//! The offset of a station in the master's station table is its permanent
//! index; metadata is kept as a history of revisions.

pub mod code;
pub mod text;
pub mod time;
pub mod decimal;
pub mod model;
pub mod order;
pub mod input;
pub mod append;
pub mod kana;
pub mod validate;
pub mod laws;
pub mod validity;
pub mod location;
pub mod report;
pub mod cli;
