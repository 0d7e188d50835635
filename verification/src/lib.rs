//! Sequences of numbers drawn at random under a composable set of rules:
//! ranges, pools, parity, spacing, runs of consecutive values, uniqueness and
//! forbidden sequences. Every rule states in its contract what it accepts,
//! and the generation engine proves that a successful result is accepted by
//! every rule it was configured with.

pub mod accepted;
pub mod default_random;
pub mod random;
pub mod random_trait;
pub mod rules;
pub mod sets;
pub mod settings;
pub mod sorting;
pub mod string_map;
pub mod text;
