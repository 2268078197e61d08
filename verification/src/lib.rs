//! A three-lane terminal task board: the board model, the input state
//! machine that drives it, and the flat-text codec it is saved with.
//!
//! Everything here is verified. The terminal itself — drawing frames,
//! reading key presses, touching the save file — lives outside this
//! crate and talks to it through plain values.

pub mod board;
pub mod codec;
pub mod controller;
