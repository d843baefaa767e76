//! Solvers and an evolutionary search for the 0/1 knapsack problem, with the
//! benchmark rules that score them.

pub mod problem;
pub mod rng;
pub mod masks;
pub mod ranking;
pub mod greedy;
pub mod exhaustive;
pub mod tabular;
pub mod evolution;
pub mod levels;
pub mod bench;
