//! Collapsing repeated submissions of one command into a single execution.

pub mod key;
pub mod persistence;
