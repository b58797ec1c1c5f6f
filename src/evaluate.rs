//! The fitness evaluator: column selection, the empty-selection default and
//! the failure sentinel, around the caller's model scoring.
use vstd::prelude::*;
use crate::fitness::{fitness_of, fitness_spec, is_finite_key, Scoring};
use crate::individual::Individual;
use crate::model::{check_model, is_supported, ConfigError, ModelName};
use crate::table::{selected, selected_rows, Table};

verus! {

/// The genome's fitness on `dataset`. The columns its mask selects are handed
/// to `score` with their count and the targets; the outcome becomes the
/// fitness as `crate::fitness::fitness_of` says. A mask that selects nothing
/// has fitness `0` (`0.0`) and is not scored. Fails on an unsupported model or
/// a mask whose length is not the feature count.
pub fn evaluate_fitness<T: Copy, F: Fn(&Vec<T>, usize, &Vec<T>) -> Scoring>(
    individual: &Individual,
    dataset: &Table<T>,
    model: ModelName,
    score: F,
) -> (r: Result<i32, ConfigError>)
    requires
        dataset.wf(),
        forall|cells: &Vec<T>, ncols: usize, target: &Vec<T>| score.requires((cells, ncols, target)),
    ensures
        r is Ok <==> is_supported(model) && individual.features@.len() == dataset.num_features_spec(),
        !is_supported(model) ==> r == Err::<i32, ConfigError>(ConfigError::UnsupportedModel),
        is_supported(model) && individual.features@.len() != dataset.num_features_spec()
            ==> r == Err::<i32, ConfigError>(ConfigError::MaskLength),
        r is Ok ==> {
            let f = r.unwrap();
            &&& is_finite_key(f as int)
            &&& f <= 0
            &&& (forall|i: int| 0 <= i < individual.features@.len() ==> !#[trigger] individual.features@[i])
                ==> f == 0
            &&& (exists|i: int| 0 <= i < individual.features@.len() && #[trigger] individual.features@[i])
                ==> exists|cells: &Vec<T>, target: &Vec<T>, s: Scoring| {
                    &&& cells@ == selected_rows(
                        dataset.data_spec(),
                        dataset.num_features_spec() as int,
                        selected(individual.features@),
                        dataset.num_samples_spec() as int,
                    )
                    &&& target@ == dataset.target_spec()
                    &&& #[trigger] score.ensures((cells, selected(individual.features@).len() as usize, target), s)
                    &&& f as int == fitness_spec(s)
                }
        },
{
    check_model(model)?;
    dataset.check_mask(&individual.features)?;
    match dataset.select_columns(&individual.features) {
        None => Ok(fitness_of(Scoring::NoColumns)),
        Some(cells) => {
            let ncols = crate::table::selected_indices(&individual.features).len();
            let target = dataset.target();
            let s = score(&cells, ncols, target);
            proof {
                let n = selected(individual.features@).len() as usize;
                assert(n == ncols);
                assert(score.ensures((&cells, n, target), s));
            }
            Ok(fitness_of(s))
        },
    }
}

} // verus!
