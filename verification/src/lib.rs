//! Constraint matching and completion for letter-board word puzzles.

pub mod bootstrap;
pub mod chunks;
pub mod evaluator;
pub mod letters;
pub mod matcher;
pub mod record;
pub mod report;
pub mod suggest;
pub mod text;
