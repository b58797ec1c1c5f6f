//! The generational loop as a state machine. The caller scores each
//! generation (in parallel, with its own model) and hands the fitness keys
//! back; the engine ranks, keeps the elite and breeds the next generation.
use vstd::prelude::*;
use crate::config::GaConfig;
use crate::individual::{Individual, draw_flips};
use crate::select::{sort_by_fitness, reproduce, sorted_desc, stable_arrangement, survivor_count, bred_from};

verus! {

/// What the engine waits for next.
#[derive(Clone, Copy, Debug, PartialEq, Eq, Structural)]
pub enum Phase {
    /// The population must be scored: see [`GaEngine::record_fitness`].
    Evaluate,
    /// The population is ranked and the next generation must be bred: see
    /// [`GaEngine::breed`].
    Reproduce,
    /// The run is over: see [`GaEngine::best`].
    Done,
}

/// The population `pop` with individual `i` given fitness `fit[i]`.
pub open spec fn with_fitness(pop: Seq<Individual>, fit: Seq<i32>) -> Seq<Individual> {
    Seq::new(pop.len(), |i: int| Individual { features: pop[i].features, fitness: fit[i] })
}

/// Number of evaluations that a run with `generations` performs: one per
/// generation, and one for a run of no generation, whose result is the best
/// of the initial population.
pub open spec fn evaluation_count(generations: i32) -> int {
    if generations <= 0 {
        1
    } else {
        generations as int
    }
}

/// A ranking of a population holds its fittest member first: every member is
/// at most as fit as the first of the ranking, which is one of the members.
pub proof fn lemma_first_is_fittest(pop: Seq<Individual>, ranked: Seq<Individual>)
    requires
        ranked.to_multiset() == pop.to_multiset(),
        sorted_desc(ranked),
        pop.len() > 0,
    ensures
        pop.contains(ranked[0]),
        forall|i: int| 0 <= i < pop.len() ==> (#[trigger] pop[i]).fitness <= ranked[0].fitness,
{
    vstd::seq_lib::to_multiset_len(ranked);
    vstd::seq_lib::to_multiset_len(pop);
    assert(ranked.contains(ranked[0]));
    vstd::seq_lib::to_multiset_contains(ranked, ranked[0]);
    vstd::seq_lib::to_multiset_contains(pop, ranked[0]);
    assert forall|i: int| 0 <= i < pop.len() implies (#[trigger] pop[i]).fitness <= ranked[0].fitness by {
        assert(pop.contains(pop[i]));
        vstd::seq_lib::to_multiset_contains(pop, pop[i]);
        vstd::seq_lib::to_multiset_contains(ranked, pop[i]);
        let j = choose|j: int| 0 <= j < ranked.len() && ranked[j] == pop[i];
        assert(ranked[j] == pop[i]);
    }
}

/// A run of no generation scores its initial population once and returns the
/// first of its ranking (see `evaluation_count` and
/// [`GaEngine::record_fitness`]): that is a genome of the initial population,
/// with the fitness it was scored with, and no initial genome scored higher.
pub proof fn lemma_zero_generations_best(initial: Seq<Individual>, fit: Seq<i32>, ranked: Seq<Individual>)
    requires
        initial.len() > 0,
        fit.len() == initial.len(),
        ranked.to_multiset() == with_fitness(initial, fit).to_multiset(),
        sorted_desc(ranked),
    ensures
        evaluation_count(0) == 1,
        exists|i: int| 0 <= i < initial.len() && ranked[0].features == initial[i].features && ranked[0].fitness == fit[i],
        forall|i: int| 0 <= i < fit.len() ==> fit[i] <= ranked[0].fitness,
{
    let scored = with_fitness(initial, fit);
    lemma_first_is_fittest(scored, ranked);
    let i = choose|i: int| 0 <= i < scored.len() && scored[i] == ranked[0];
    assert(ranked[0].features == initial[i].features && ranked[0].fitness == fit[i]);
    assert forall|i: int| 0 <= i < fit.len() implies fit[i] <= ranked[0].fitness by {
        assert(scored[i].fitness == fit[i]);
    }
}

/// Elitism: where a genome's fitness is a function `score` of its mask, the
/// best fitness of a population of two or more never decreases from one
/// generation to the next, since the fittest genome survives unchanged.
pub proof fn lemma_elitism(
    ranked: Seq<Individual>,
    flips: Seq<Vec<bool>>,
    bred: Seq<Individual>,
    next_fit: Seq<i32>,
    next_ranked: Seq<Individual>,
    score: spec_fn(Seq<bool>) -> i32,
)
    requires
        ranked.len() >= 2,
        sorted_desc(ranked),
        forall|i: int| 0 <= i < ranked.len() ==> (#[trigger] ranked[i]).fitness == score(ranked[i].features@),
        bred_from(bred, ranked, flips),
        next_fit.len() == bred.len(),
        forall|i: int| 0 <= i < bred.len() ==> #[trigger] next_fit[i] == score(bred[i].features@),
        next_ranked.to_multiset() == with_fitness(bred, next_fit).to_multiset(),
        sorted_desc(next_ranked),
    ensures
        next_ranked[0].fitness >= ranked[0].fitness,
{
    assert(bred[0] == ranked[0]);
    assert(next_fit[0] == score(bred[0].features@));
    let scored = with_fitness(bred, next_fit);
    lemma_first_is_fittest(scored, next_ranked);
    assert(scored[0].fitness == next_fit[0]);
}

/// One run of the genetic algorithm over masks of `num_features` genes.
pub struct GaEngine {
    config: GaConfig,
    num_features: usize,
    population: Vec<Individual>,
    evaluations_left: i32,
    phase: Phase,
}

impl GaEngine {
    pub closed spec fn population_spec(&self) -> Seq<Individual> {
        self.population@
    }

    pub closed spec fn phase_spec(&self) -> Phase {
        self.phase
    }

    /// Evaluations still to come, the one awaited included.
    pub closed spec fn evaluations_left_spec(&self) -> int {
        self.evaluations_left as int
    }

    pub closed spec fn config_spec(&self) -> GaConfig {
        self.config
    }

    pub closed spec fn num_features_spec(&self) -> nat {
        self.num_features as nat
    }

    /// The engine's invariant: the population has the configured size and
    /// every mask has one gene per feature; an engine that is not done has an
    /// evaluation to come.
    pub closed spec fn wf(&self) -> bool {
        &&& self.population@.len() == self.config.population_size
        &&& self.config.population_size > 0
        &&& forall|i: int| 0 <= i < self.population@.len()
            ==> (#[trigger] self.population@[i]).features@.len() == self.num_features
        &&& self.evaluations_left >= 0
        &&& (self.phase == Phase::Done <==> self.evaluations_left == 0)
        &&& (self.phase == Phase::Reproduce ==> sorted_desc(self.population@))
        &&& (self.phase == Phase::Done ==> sorted_desc(self.population@))
    }

    /// What the invariant says of the population: it has the configured,
    /// positive size, and every mask has one gene per feature. Every method
    /// that changes the engine keeps the invariant.
    pub proof fn lemma_population_shape(&self)
        requires
            self.wf(),
        ensures
            self.population_spec().len() == self.config_spec().population_size,
            self.config_spec().population_size > 0,
            forall|i: int| 0 <= i < self.population_spec().len()
                ==> (#[trigger] self.population_spec()[i]).features@.len() == self.num_features_spec(),
            self.phase_spec() != Phase::Evaluate ==> sorted_desc(self.population_spec()),
    {
    }

    /// A run on the given initial population, waiting for its first scoring.
    pub fn from_population(config: GaConfig, num_features: usize, population: Vec<Individual>) -> (r: GaEngine)
        requires
            config.population_size > 0,
            population@.len() == config.population_size,
            forall|i: int| 0 <= i < population@.len() ==> (#[trigger] population@[i]).features@.len() == num_features,
        ensures
            r.wf(),
            r.population_spec() == population@,
            r.phase_spec() == Phase::Evaluate,
            r.evaluations_left_spec() == evaluation_count(config.generations),
            r.config_spec() == config,
            r.num_features_spec() == num_features,
    {
        let evaluations_left: i32 = if config.generations <= 0 { 1 } else { config.generations };
        GaEngine { config, num_features, population, evaluations_left, phase: Phase::Evaluate }
    }

    /// A run on `config.population_size` random masks of `num_features` genes,
    /// none scored yet.
    pub fn new(config: GaConfig, num_features: usize) -> (r: GaEngine)
        requires
            config.population_size > 0,
        ensures
            r.wf(),
            r.population_spec().len() == config.population_size,
            forall|i: int| 0 <= i < r.population_spec().len()
                ==> (#[trigger] r.population_spec()[i]).fitness == 0,
            r.phase_spec() == Phase::Evaluate,
            r.evaluations_left_spec() == evaluation_count(config.generations),
            r.config_spec() == config,
            r.num_features_spec() == num_features,
    {
        let n = config.population_size;
        let mut population: Vec<Individual> = Vec::with_capacity(n);
        let mut i: usize = 0;
        while i < n
            invariant
                i <= n,
                population@.len() == i,
                forall|k: int| 0 <= k < i ==> {
                    &&& (#[trigger] population@[k]).features@.len() == num_features
                    &&& population@[k].fitness == 0
                },
            decreases n - i,
        {
            population.push(Individual::new(num_features));
            i += 1;
        }
        GaEngine::from_population(config, num_features, population)
    }

    /// The current population.
    pub fn population(&self) -> (r: &Vec<Individual>)
        ensures
            r@ == self.population_spec(),
    {
        &self.population
    }

    /// What the engine waits for.
    pub fn phase(&self) -> (r: Phase)
        ensures
            r == self.phase_spec(),
    {
        self.phase
    }

    /// Number of features of every mask.
    pub fn num_features(&self) -> (r: usize)
        ensures
            r == self.num_features_spec(),
    {
        self.num_features
    }

    /// Takes the fitness of each individual (`fitness[i]` for individual `i`)
    /// and ranks the population by descending fitness. The run is then over if
    /// this was its last evaluation; otherwise it waits to breed.
    pub fn record_fitness(&mut self, fitness: &Vec<i32>)
        requires
            old(self).wf(),
            old(self).phase_spec() == Phase::Evaluate,
            fitness@.len() == old(self).population_spec().len(),
        ensures
            final(self).wf(),
            final(self).population_spec().to_multiset()
                == with_fitness(old(self).population_spec(), fitness@).to_multiset(),
            sorted_desc(final(self).population_spec()),
            exists|p: Seq<int>| stable_arrangement(
                with_fitness(old(self).population_spec(), fitness@),
                final(self).population_spec(),
                p,
            ),
            final(self).evaluations_left_spec() == old(self).evaluations_left_spec() - 1,
            final(self).phase_spec() == (if old(self).evaluations_left_spec() == 1 {
                Phase::Done
            } else {
                Phase::Reproduce
            }),
            final(self).config_spec() == old(self).config_spec(),
            final(self).num_features_spec() == old(self).num_features_spec(),
    {
        let n = self.population.len();
        let ghost start = self.population@;
        let mut i: usize = 0;
        while i < n
            invariant
                n == self.population@.len(),
                n == fitness@.len(),
                n == start.len(),
                i <= n,
                self.config == old(self).config,
                self.num_features == old(self).num_features,
                self.evaluations_left == old(self).evaluations_left,
                self.phase == old(self).phase,
                start == old(self).population@,
                old(self).wf(),
                forall|k: int| 0 <= k < n ==> (#[trigger] self.population@[k]).features == start[k].features,
                forall|k: int| 0 <= k < i ==> (#[trigger] self.population@[k]).fitness == fitness@[k],
            decreases n - i,
        {
            self.population[i].fitness = fitness[i];
            i += 1;
        }
        assert(self.population@ =~= with_fitness(start, fitness@));
        let mut scored: Vec<Individual> = Vec::new();
        std::mem::swap(&mut scored, &mut self.population);
        self.population = sort_by_fitness(scored);
        proof {
            assert forall|k: int| 0 <= k < self.population@.len()
                implies (#[trigger] self.population@[k]).features@.len() == self.num_features by {
                let m = with_fitness(start, fitness@);
                let x = self.population@[k];
                assert(self.population@.contains(x));
                vstd::seq_lib::to_multiset_contains(self.population@, x);
                vstd::seq_lib::to_multiset_contains(m, x);
                let j = choose|j: int| 0 <= j < m.len() && m[j] == x;
                assert(m[j].features == start[j].features);
            }
        }
        self.evaluations_left = self.evaluations_left - 1;
        if self.evaluations_left == 0 {
            self.phase = Phase::Done;
        } else {
            self.phase = Phase::Reproduce;
        }
    }

    /// Breeds the next generation from the ranked population, flipping the
    /// genes of offspring `i` where `flips[i]` marks them (see
    /// [`crate::select::reproduce`]); the engine then waits for its scoring.
    pub fn breed_with(&mut self, flips: &Vec<Vec<bool>>)
        requires
            old(self).wf(),
            old(self).phase_spec() == Phase::Reproduce,
            flips@.len() == old(self).population_spec().len()
                - survivor_count(old(self).population_spec().len() as int),
            forall|i: int| 0 <= i < flips@.len() ==> (#[trigger] flips@[i])@.len() == old(self).num_features_spec(),
        ensures
            final(self).wf(),
            bred_from(final(self).population_spec(), old(self).population_spec(), flips@),
            final(self).phase_spec() == Phase::Evaluate,
            final(self).evaluations_left_spec() == old(self).evaluations_left_spec(),
            final(self).config_spec() == old(self).config_spec(),
            final(self).num_features_spec() == old(self).num_features_spec(),
    {
        let mut ranked: Vec<Individual> = Vec::new();
        std::mem::swap(&mut ranked, &mut self.population);
        let ghost before = ranked@;
        self.population = reproduce(ranked, flips);
        proof {
            let h = survivor_count(before.len() as int);
            assert forall|k: int| 0 <= k < self.population@.len()
                implies (#[trigger] self.population@[k]).features@.len() == self.num_features by {
                if k >= h {
                    assert(self.population@[h + (k - h)] == self.population@[k]);
                }
            }
        }
        self.phase = Phase::Evaluate;
    }

    /// Breeds the next generation, each gene of each offspring flipped with
    /// the mutation probability.
    pub fn breed(&mut self)
        requires
            old(self).wf(),
            old(self).phase_spec() == Phase::Reproduce,
        ensures
            final(self).wf(),
            exists|flips: Seq<Vec<bool>>| bred_from(final(self).population_spec(), old(self).population_spec(), flips),
            final(self).phase_spec() == Phase::Evaluate,
            final(self).evaluations_left_spec() == old(self).evaluations_left_spec(),
            final(self).config_spec() == old(self).config_spec(),
            final(self).num_features_spec() == old(self).num_features_spec(),
    {
        let n = self.population.len();
        let h = n / 2;
        let mut flips: Vec<Vec<bool>> = Vec::with_capacity(n - h);
        let mut i: usize = 0;
        while i < n - h
            invariant
                n == self.population@.len(),
                h == n / 2,
                i <= n - h,
                flips@.len() == i,
                forall|k: int| 0 <= k < i ==> (#[trigger] flips@[k])@.len() == self.num_features,
            decreases n - h - i,
        {
            flips.push(draw_flips(self.num_features));
            i += 1;
        }
        self.breed_with(&flips);
    }

    /// The first-ranked individual of the last scored population, once the run
    /// is over.
    pub fn best(&self) -> (r: Option<&Individual>)
        requires
            self.wf(),
        ensures
            r is Some <==> self.phase_spec() == Phase::Done,
            r is Some ==> *r.unwrap() == self.population_spec()[0],
    {
        if self.phase == Phase::Done {
            Some(&self.population[0])
        } else {
            None
        }
    }
}

} // verus!
