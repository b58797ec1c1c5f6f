//! The genome: a feature mask and the fitness it was last given.
use vstd::prelude::*;
use crate::random::{chance, coin};

verus! {

/// Per-gene mutation probability, as `MUTATION_NUMERATOR / MUTATION_DENOMINATOR`.
pub const MUTATION_NUMERATOR: u32 = 1;

/// See [`MUTATION_NUMERATOR`].
pub const MUTATION_DENOMINATOR: u32 = 100;

/// One candidate feature subset. `features[i]` says whether feature `i` is
/// used; `fitness` is the order key (see `crate::fitness`) of the negated mean
/// squared error it was last scored with, `0` (that is `0.0`) before scoring.
#[derive(Clone, Debug)]
pub struct Individual {
    pub features: Vec<bool>,
    pub fitness: i32,
}

/// `mask` with each gene flipped where `flips` is set.
pub open spec fn flipped(mask: Seq<bool>, flips: Seq<bool>) -> Seq<bool> {
    Seq::new(mask.len(), |i: int| mask[i] != flips[i])
}

/// A copy of a mask.
pub fn copy_mask(mask: &Vec<bool>) -> (r: Vec<bool>)
    ensures
        r@ == mask@,
{
    let mut r: Vec<bool> = Vec::with_capacity(mask.len());
    let mut i: usize = 0;
    while i < mask.len()
        invariant
            i <= mask.len(),
            r@ == mask@.subrange(0, i as int),
        decreases mask.len() - i,
    {
        r.push(mask[i]);
        i += 1;
    }
    assert(r@ =~= mask@);
    r
}

/// A mask of `n` genes, each drawn from a fair coin.
pub fn random_mask(n: usize) -> (r: Vec<bool>)
    ensures
        r@.len() == n,
{
    let mut r: Vec<bool> = Vec::with_capacity(n);
    let mut i: usize = 0;
    while i < n
        invariant
            i <= n,
            r@.len() == i,
        decreases n - i,
    {
        r.push(coin());
        i += 1;
    }
    r
}

/// `n` independent draws, each `true` with the mutation probability.
pub fn draw_flips(n: usize) -> (r: Vec<bool>)
    ensures
        r@.len() == n,
{
    let mut r: Vec<bool> = Vec::with_capacity(n);
    let mut i: usize = 0;
    while i < n
        invariant
            i <= n,
            r@.len() == i,
        decreases n - i,
    {
        r.push(chance(MUTATION_NUMERATOR, MUTATION_DENOMINATOR));
        i += 1;
    }
    r
}

impl Individual {
    /// A genome of `num_features` genes, each drawn from a fair coin, not yet
    /// scored.
    pub fn new(num_features: usize) -> (r: Individual)
        ensures
            r.features@.len() == num_features,
            r.fitness == 0,
    {
        Individual { features: random_mask(num_features), fitness: 0 }
    }

    /// A genome that selects every feature, not yet scored.
    pub fn new_all_true(num_features: usize) -> (r: Individual)
        ensures
            r.features@ == Seq::new(num_features as nat, |i: int| true),
            r.fitness == 0,
    {
        let mut features: Vec<bool> = Vec::with_capacity(num_features);
        let mut i: usize = 0;
        while i < num_features
            invariant
                i <= num_features,
                features@ == Seq::new(i as nat, |j: int| true),
            decreases num_features - i,
        {
            features.push(true);
            i += 1;
            assert(features@ =~= Seq::new(i as nat, |j: int| true));
        }
        Individual { features, fitness: 0 }
    }

    /// A genome with the given mask, not yet scored.
    pub fn from_mask(features: Vec<bool>) -> (r: Individual)
        ensures
            r.features == features,
            r.fitness == 0,
    {
        Individual { features, fitness: 0 }
    }

    /// A copy with the same mask and fitness.
    pub fn duplicate(&self) -> (r: Individual)
        ensures
            r.features@ == self.features@,
            r.fitness == self.fitness,
    {
        Individual { features: copy_mask(&self.features), fitness: self.fitness }
    }

    /// Flips each gene `i` for which `flips[i]` holds; the fitness is kept.
    pub fn apply_flips(&mut self, flips: &Vec<bool>)
        requires
            flips@.len() == old(self).features@.len(),
        ensures
            final(self).features@ == flipped(old(self).features@, flips@),
            final(self).fitness == old(self).fitness,
    {
        let n = self.features.len();
        let mut i: usize = 0;
        while i < n
            invariant
                n == self.features@.len(),
                n == flips@.len(),
                i <= n,
                self.fitness == old(self).fitness,
                forall|j: int| 0 <= j < i ==> self.features@[j] == (old(self).features@[j] != flips@[j]),
                forall|j: int| i <= j < n ==> self.features@[j] == old(self).features@[j],
            decreases n - i,
        {
            if flips[i] {
                let g = !self.features[i];
                self.features.set(i, g);
            }
            i += 1;
        }
        assert(self.features@ =~= flipped(old(self).features@, flips@));
    }

    /// Flips each gene independently with the mutation probability; the mask
    /// keeps its length and the fitness is kept.
    pub fn mutate(&mut self)
        ensures
            final(self).features@.len() == old(self).features@.len(),
            final(self).fitness == old(self).fitness,
    {
        let flips = draw_flips(self.features.len());
        self.apply_flips(&flips);
    }
}

} // verus!
