//! Solving engine for Aquarium puzzles.

pub mod encoder;
pub mod error;
pub mod formula;
pub mod markup;
pub mod matching;
pub mod puzzle;
pub mod regions;
pub mod render;
pub mod solver;
pub mod union_find;
pub mod walls;
