//! An evolutionary ruin-and-recreate search engine for routing problems.
//!
//! The engine repeatedly selects a candidate solution from a population,
//! removes part of its assigned work (ruin), reinserts the removed work
//! (recreate), and admits the result back into the population until a
//! termination criterion is met.  Costs are integral; fractions such as
//! probabilities and thresholds are given in thousandths (permille).

pub mod model;
pub mod rng;
pub mod limit;
pub mod select;
pub mod sorting;
pub mod ruin;
pub mod cluster;
pub mod recreate;
pub mod population;
pub mod termination;
pub mod mutation;
pub mod solver;
pub mod config;
