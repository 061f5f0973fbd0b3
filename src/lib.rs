//! Keyboard layout analysis and optimisation.
//!
//! A layout assigns symbols to the 30 keys of a 3x10 matrix. The library
//! classifies finger patterns, scores layouts against corpus frequencies,
//! keeps an incrementally updated score cache, and searches for local optima
//! by key swaps and column permutations.

pub mod finger;
pub mod pattern;
pub mod sums;
pub mod pair;
pub mod geometry;
pub mod keyboard;
pub mod weights;
pub mod language;
pub mod layout;
pub mod scoring;
pub mod evaluate;
pub mod cache;
pub mod optimizer;
pub mod generator;
pub mod config;
pub mod converter;
pub mod ngram;
pub mod langs;
