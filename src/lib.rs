//! Pairwise mutual information between the rows of an expression matrix,
//! estimated from equal-count quantile bins.
//!
//! Samples are handed to the library as order keys (`u64` values whose order
//! is the order of the measured values): binning reads nothing but that order.
//! The library discretizes each row, counts joint and marginal bin
//! frequencies for every unordered pair of rows, and assembles the symmetric
//! all-pairs table. The score itself, a sum of logarithms over those counts,
//! is left to the caller.
pub mod discretize;
pub mod engine;
pub mod error;
pub mod frequency;
pub mod pairs;
pub mod table;
