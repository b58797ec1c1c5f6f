//! Aggregation of the folds of a cross-validation. Folds finish in any order;
//! each hands in the validation fitness of its best genome and that genome's
//! mask. The aggregate keeps every fold's held-out error (the negated
//! fitness) and, once all folds are in, names the fold of lowest error.
use vstd::prelude::*;
use crate::config::GaConfig;
use crate::fitness::{negate, neg_key};
use crate::model::{ConfigError, ModelName, check_model, is_supported};
use crate::individual::copy_mask;

verus! {

/// `Ok` when a cross-validation can start: a supported model, a positive
/// population size and at least one fold. Otherwise the first of these that
/// fails, in that order.
pub fn validate_run(model: ModelName, config: GaConfig, k_folds: usize) -> (r: Result<(), ConfigError>)
    ensures
        r is Ok <==> is_supported(model) && config.population_size > 0 && k_folds >= 1,
        !is_supported(model) ==> r == Err::<(), ConfigError>(ConfigError::UnsupportedModel),
        is_supported(model) && config.population_size == 0 ==> r == Err::<(), ConfigError>(ConfigError::EmptyPopulation),
        is_supported(model) && config.population_size > 0 && k_folds == 0 ==> r == Err::<(), ConfigError>(ConfigError::NoFolds),
{
    match check_model(model) {
        Err(e) => Err(e),
        Ok(()) => {
            if config.population_size == 0 {
                Err(ConfigError::EmptyPopulation)
            } else if k_folds == 0 {
                Err(ConfigError::NoFolds)
            } else {
                Ok(())
            }
        },
    }
}

/// The held-out error of one fold and the mask it was measured with.
#[derive(Clone, Debug)]
pub struct FoldOutcome {
    /// Order key of the validation error: the negated validation fitness.
    pub error: i32,
    pub mask: Vec<bool>,
}

/// The finished aggregate.
#[derive(Clone, Debug)]
pub struct CvSummary {
    /// Order key of each fold's validation error, by fold index.
    pub fold_errors: Vec<i32>,
    /// The fold of lowest error; of folds with equal error, the first.
    pub best_fold: usize,
    /// The mask that fold was measured with.
    pub best_mask: Vec<bool>,
}

/// Fold `a` with error `ea` ranks before fold `b` with error `eb`.
pub open spec fn ranks_before(ea: int, a: int, eb: int, b: int) -> bool {
    ea < eb || (ea == eb && a < b)
}

/// The fold that a summary names as best is determined by the fold errors
/// alone: two folds that each rank before every other fold are the same.
pub proof fn lemma_best_fold_unique(errors: Seq<i32>, b1: int, b2: int)
    requires
        0 <= b1 < errors.len(),
        0 <= b2 < errors.len(),
        forall|f: int| 0 <= f < errors.len() && f != b1 ==> ranks_before(errors[b1] as int, b1, #[trigger] errors[f] as int, f),
        forall|f: int| 0 <= f < errors.len() && f != b2 ==> ranks_before(errors[b2] as int, b2, #[trigger] errors[f] as int, f),
    ensures
        b1 == b2,
{
    if b1 != b2 {
        assert(ranks_before(errors[b1] as int, b1, errors[b2] as int, b2));
        assert(ranks_before(errors[b2] as int, b2, errors[b1] as int, b1));
    }
}

/// Recording two different folds gives the same outcomes in either order, so
/// the aggregate does not depend on the order in which folds finish.
pub proof fn lemma_record_order_irrelevant(
    outcomes: Seq<Option<FoldOutcome>>,
    f1: int,
    o1: FoldOutcome,
    f2: int,
    o2: FoldOutcome,
)
    requires
        0 <= f1 < outcomes.len(),
        0 <= f2 < outcomes.len(),
        f1 != f2,
    ensures
        outcomes.update(f1, Some(o1)).update(f2, Some(o2)) == outcomes.update(f2, Some(o2)).update(f1, Some(o1)),
{
    assert(outcomes.update(f1, Some(o1)).update(f2, Some(o2)) =~= outcomes.update(f2, Some(o2)).update(f1, Some(o1)));
}

/// Results of the folds `0..k` of one cross-validation, filled as they finish.
pub struct CvAggregate {
    outcomes: Vec<Option<FoldOutcome>>,
}

impl CvAggregate {
    /// The outcome recorded for each fold, `None` for a fold still running.
    pub closed spec fn outcomes_spec(&self) -> Seq<Option<FoldOutcome>> {
        self.outcomes@
    }

    /// An aggregate for `k_folds` folds, none recorded.
    pub fn new(k_folds: usize) -> (r: CvAggregate)
        ensures
            r.outcomes_spec().len() == k_folds,
            forall|f: int| 0 <= f < k_folds ==> #[trigger] r.outcomes_spec()[f] is None,
    {
        let mut outcomes: Vec<Option<FoldOutcome>> = Vec::with_capacity(k_folds);
        let mut i: usize = 0;
        while i < k_folds
            invariant
                i <= k_folds,
                outcomes@.len() == i,
                forall|f: int| 0 <= f < i ==> #[trigger] outcomes@[f] is None,
            decreases k_folds - i,
        {
            outcomes.push(None);
            i += 1;
        }
        CvAggregate { outcomes }
    }

    /// Number of folds.
    pub fn k_folds(&self) -> (r: usize)
        ensures
            r == self.outcomes_spec().len(),
    {
        self.outcomes.len()
    }

    /// Whether fold `fold` has been recorded.
    pub fn is_recorded(&self, fold: usize) -> (r: bool)
        requires
            fold < self.outcomes_spec().len(),
        ensures
            r == self.outcomes_spec()[fold as int] is Some,
    {
        self.outcomes[fold].is_some()
    }

    /// Records that fold `fold`'s best genome, of mask `mask`, scored
    /// `fitness` on the fold's validation rows: its error is `-fitness`.
    pub fn record(&mut self, fold: usize, fitness: i32, mask: Vec<bool>)
        requires
            fold < old(self).outcomes_spec().len(),
            old(self).outcomes_spec()[fold as int] is None,
        ensures
            final(self).outcomes_spec() == old(self).outcomes_spec().update(
                fold as int,
                Some(FoldOutcome { error: negate_spec_key(fitness), mask }),
            ),
    {
        let error = negate(fitness);
        self.outcomes.set(fold, Some(FoldOutcome { error, mask }));
    }

    /// The summary once every fold is recorded, `None` before.
    pub fn finish(&self) -> (r: Option<CvSummary>)
        ensures
            r is Some <==> self.outcomes_spec().len() > 0
                && forall|f: int| 0 <= f < self.outcomes_spec().len() ==> #[trigger] self.outcomes_spec()[f] is Some,
            r is Some ==> {
                let s = r.unwrap();
                let o = self.outcomes_spec();
                &&& s.fold_errors@.len() == o.len()
                &&& forall|f: int| 0 <= f < o.len() ==> #[trigger] s.fold_errors@[f] == o[f].unwrap().error
                &&& s.best_fold < o.len()
                &&& forall|f: int| 0 <= f < o.len() && f != s.best_fold ==> ranks_before(
                    s.fold_errors@[s.best_fold as int] as int,
                    s.best_fold as int,
                    #[trigger] s.fold_errors@[f] as int,
                    f,
                )
                &&& s.best_mask@ == o[s.best_fold as int].unwrap().mask@
            },
    {
        let k = self.outcomes.len();
        if k == 0 {
            return None;
        }
        let mut fold_errors: Vec<i32> = Vec::with_capacity(k);
        let mut best: usize = 0;
        let mut i: usize = 0;
        while i < k
            invariant
                k == self.outcomes@.len(),
                i <= k,
                fold_errors@.len() == i,
                forall|f: int| 0 <= f < i ==> #[trigger] self.outcomes@[f] is Some,
                forall|f: int| 0 <= f < i ==> #[trigger] fold_errors@[f] == self.outcomes@[f].unwrap().error,
                best < k,
                best == 0 || best < i,
                forall|f: int| 0 <= f < i && f != best ==> ranks_before(
                    fold_errors@[best as int] as int,
                    best as int,
                    #[trigger] fold_errors@[f] as int,
                    f,
                ),
            decreases k - i,
        {
            match &self.outcomes[i] {
                None => {
                    return None;
                },
                Some(o) => {
                    fold_errors.push(o.error);
                    if i > 0 && o.error < fold_errors[best] {
                        best = i;
                    }
                },
            }
            i += 1;
        }
        let best_mask = match &self.outcomes[best] {
            Some(o) => copy_mask(&o.mask),
            None => Vec::new(),
        };
        Some(CvSummary { fold_errors, best_fold: best, best_mask })
    }
}

/// Key of `-x` for the fitness key `x`.
pub open spec fn negate_spec_key(fitness: i32) -> i32 {
    neg_key(fitness as int) as i32
}

} // verus!
