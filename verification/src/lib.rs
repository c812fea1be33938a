//! Genetic search for programs in a minimal tape-machine language.
//!
//! The crate couples a bounded, deterministic interpreter for the language
//! with an evolutionary search loop that uses the interpreter as a fitness
//! oracle: a seedable pseudo-random generator drives selection, crossover
//! and mutation, and every step of the pipeline is specified so that a run
//! is a pure function of its seed and configuration.

pub mod bf;
pub mod config;
pub mod evolve;
pub mod fitness;
pub mod population;
pub mod rand;
pub mod render;
