//! A rules engine for Nine Men's Morris: board geometry, validation and
//! application of place / move / remove actions, mill and win detection,
//! exact undo, and the textual action notation.
pub mod board;
pub mod nmm;
pub mod notation;
pub mod rules;
