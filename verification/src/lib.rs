//! Finds the largest files below a directory.
//!
//! Walkers enumerate directories and forward every file that is at least as
//! large as the floor they last saw. One aggregator owns the bounded ranking
//! of the largest files and the running totals, checks every candidate again
//! against its own floor, and raises the floor once the ranking is full.

pub mod aggregator;
pub mod args;
pub mod arrival;
pub mod candidate;
pub mod counts;
pub mod dates;
pub mod laws;
pub mod ranking;
pub mod report;
pub mod sizes;
pub mod threshold;
pub mod topk;
pub mod walker;
