//! A chunked falling-sand cellular automaton: a rectangular world of square
//! chunks, swept once per frame by live-cell rules whose moves are planned
//! against a read-only snapshot and applied in sweep order afterwards.

pub mod cell;
pub mod chunk;
pub mod grid;
pub mod neighbor;
pub mod sand;
pub mod sweep;
pub mod laws;
