//! Limits that keep the simulation of an animation sequence finite.

use vstd::prelude::*;

verus! {

/// Limits for parsing animation sequences: the total number of steps, and
/// how often one descriptor position may be visited.
#[derive(Debug, Clone, Copy, PartialEq, Eq)]
pub struct ParseConfig {
    /// Maximum number of steps before parsing fails
    pub max_iterations: usize,
    /// Maximum number of visits of one position before parsing stops
    pub max_visits_per_index: usize,
}

impl Default for ParseConfig {
    fn default() -> (r: Self)
        ensures
            r == (ParseConfig { max_iterations: 5000, max_visits_per_index: 128 }),
    {
        ParseConfig { max_iterations: 5000, max_visits_per_index: 128 }
    }
}

impl ParseConfig {
    /// A configuration with the given limits.
    pub fn new(max_iterations: usize, max_visits_per_index: usize) -> (r: Self)
        ensures
            r == (ParseConfig { max_iterations, max_visits_per_index }),
    {
        ParseConfig { max_iterations, max_visits_per_index }
    }

    /// Higher limits, for complex looping animations.
    pub fn lenient() -> (r: Self)
        ensures
            r == (ParseConfig { max_iterations: 10000, max_visits_per_index: 512 }),
    {
        ParseConfig { max_iterations: 10000, max_visits_per_index: 512 }
    }

    /// Lower limits, for simple animations.
    pub fn strict() -> (r: Self)
        ensures
            r == (ParseConfig { max_iterations: 1000, max_visits_per_index: 32 }),
    {
        ParseConfig { max_iterations: 1000, max_visits_per_index: 32 }
    }
}

} // verus!
