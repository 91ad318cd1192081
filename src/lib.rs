//! Data model, response parsing and screen contents of a terminal dashboard that
//! shows a player's ladder statistics next to those of the current opponent.
//!
//! The program around the library performs the HTTP requests, parses the bodies
//! into [`json::Json`], draws the panes and runs the refresh timer.

pub mod json;
pub mod fetch;
pub mod race;
pub mod render;
pub mod schedule;
pub mod url;
