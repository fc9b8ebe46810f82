//! A small, pane-aware system summary: the parsing of what the machine
//! reports, the choice of rows and the layout of the readout.
//!
//! Everything that reads the machine (files, commands, the environment, the
//! terminal) happens outside this crate; the functions here take what was read
//! as plain values and are verified against their contracts.

pub mod config;
pub mod fetch;
pub mod fit;
pub mod laws;
pub mod number;
pub mod readings;
pub mod render;
pub mod resize;
pub mod rows;
pub mod text;
pub mod width;
