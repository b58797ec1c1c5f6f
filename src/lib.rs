//! Feature subset selection by a genetic algorithm, wrapped in k-fold
//! cross-validation. The library holds the search's decisions: the genome and
//! its mutation, truncation selection, the generational state machine, the
//! fold partition of a dataset, column selection and the aggregation of fold
//! results. Model fitting and the parallel scoring of a population are left to
//! the caller, who hands each fitness back as an order key (see [`fitness`]).
pub mod config;
pub mod fitness;
pub mod model;
pub mod individual;
pub mod select;
pub mod ga;
pub mod folds;
pub mod table;
pub mod cv;
pub mod evaluate;
mod random;
