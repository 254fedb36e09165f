//! A genetic-algorithm engine for the travelling salesman problem.
//!
//! A population of closed tours over a fixed distance table is evolved by
//! elitist selection, order-preserving crossover and point mutation. Every
//! function states its behaviour over sequences of city indices, and the
//! statements are machine-checked.

pub mod breed;
pub mod city_map;
pub mod error;
pub mod log;
pub mod path;
pub mod population;
pub mod random;
pub mod select;
