//! A terminal-driven multiple-choice quiz library.
//!
//! The library owns the quiz data model, its validated construction from raw
//! question records, the shuffling of questions and answers, the resolution of
//! the correct answer's position, the scoring session, and the textual
//! rendering of questions and results. Reading the question source and the
//! user's input lines is left to the surrounding program.

pub mod args;
pub mod decimal;
pub mod display;
pub mod input;
pub mod model;
pub mod session;
pub mod shuffle;
