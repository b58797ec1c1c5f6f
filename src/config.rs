//! Parameters of one run of the genetic algorithm.
use vstd::prelude::*;

verus! {

/// Size of the population and number of generations of a run.
#[derive(Clone, Copy, Debug, PartialEq, Eq, Structural)]
pub struct GaConfig {
    /// Number of individuals in every generation; must be positive.
    pub population_size: usize,
    /// Number of evaluate-select-reproduce cycles; a negative count runs none.
    pub generations: i32,
}

impl Default for GaConfig {
    fn default() -> (r: Self)
        ensures
            r.population_size == 50,
            r.generations == 50,
    {
        GaConfig { population_size: 50, generations: 50 }
    }
}

} // verus!
