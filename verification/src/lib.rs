//! A timed quiz library: loading question/answer pairs from a delimited
//! text file, shuffling them, and scoring a run of timed answers.
//!
//! The quiz file is a sequence of newline-separated lines; each non-empty
//! line holds a question and an answer separated by the first comma on the
//! line. A run walks the (shuffled) records in order, matching each typed
//! answer against the expected one, and stops at the first timeout.

pub mod answer;
pub mod loader;
pub mod render;
pub mod runner;
pub mod shuffle;
pub mod types;
