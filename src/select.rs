//! Ranking of a scored population and truncation selection with offspring.
use vstd::prelude::*;
use vstd::multiset::Multiset;
use crate::individual::{Individual, flipped};

verus! {

/// Fitness does not increase along `s`: best first.
pub open spec fn sorted_desc(s: Seq<Individual>) -> bool {
    forall|i: int, j: int| 0 <= i < j < s.len() ==> s[i].fitness >= s[j].fitness
}

/// `r` arranges the members of `pop` by the index map `p`: `r[i]` is
/// `pop[p[i]]`, no index of `pop` is used twice, and members of equal fitness
/// keep the relative order they had in `pop`.
pub open spec fn stable_arrangement(pop: Seq<Individual>, r: Seq<Individual>, p: Seq<int>) -> bool {
    &&& p.len() == r.len()
    &&& r.len() == pop.len()
    &&& forall|i: int| 0 <= i < r.len() ==> 0 <= #[trigger] p[i] < pop.len() && r[i] == pop[p[i]]
    &&& forall|i: int, j: int| 0 <= i < j < r.len() ==> p[i] != p[j]
    &&& forall|i: int, j: int| 0 <= i < j < r.len() && r[i].fitness == r[j].fitness ==> p[i] < p[j]
}

/// Number of survivors that a population of `n` keeps unchanged.
pub open spec fn survivor_count(n: int) -> int {
    n / 2
}

/// The population ranked by descending fitness. Individuals of equal fitness
/// keep their relative order.
pub fn sort_by_fitness(pop: Vec<Individual>) -> (r: Vec<Individual>)
    ensures
        r@.to_multiset() == pop@.to_multiset(),
        r@.len() == pop@.len(),
        sorted_desc(r@),
        exists|p: Seq<int>| stable_arrangement(pop@, r@, p),
{
    let ghost whole = pop@;
    let ghost mut p: Seq<int> = Seq::empty();
    let mut rest = pop;
    let mut out: Vec<Individual> = Vec::new();
    proof {
        vstd::seq_lib::to_multiset_len(out@);
        assert(out@.to_multiset() =~= Multiset::empty());
        assert(out@.to_multiset().add(rest@.to_multiset()) =~= whole.to_multiset());
    }
    while rest.len() > 0
        invariant
            sorted_desc(out@),
            out@.to_multiset().add(rest@.to_multiset()) == whole.to_multiset(),
            out@.len() + rest@.len() == whole.len(),
            rest@ == whole.subrange(0, rest@.len() as int),
            p.len() == out@.len(),
            forall|i: int| 0 <= i < out@.len() ==> rest@.len() <= #[trigger] p[i] < whole.len() && out@[i] == whole[p[i]],
            forall|i: int, j: int| 0 <= i < j < out@.len() ==> p[i] != p[j],
            forall|i: int, j: int| 0 <= i < j < out@.len() && out@[i].fitness == out@[j].fitness ==> p[i] < p[j],
        decreases rest.len(),
    {
        let ghost before = rest@;
        let x = rest.pop().unwrap();
        proof {
            assert(before =~= rest@.push(x));
            vstd::seq_lib::to_multiset_build(rest@, x);
            assert(x == whole[rest@.len() as int]);
            assert(rest@ =~= whole.subrange(0, rest@.len() as int));
        }
        let mut j: usize = 0;
        while j < out.len() && out[j].fitness > x.fitness
            invariant
                j <= out@.len(),
                forall|t: int| 0 <= t < j ==> out@[t].fitness > x.fitness,
            decreases out@.len() - j,
        {
            j += 1;
        }
        let ghost prev = out@;
        let ghost prev_p = p;
        let ghost m = rest@.len() as int;
        out.insert(j, x);
        proof {
            p = prev_p.insert(j as int, m);
            assert forall|i: int| 0 <= i < out@.len() implies m <= #[trigger] p[i] < whole.len() && out@[i] == whole[p[i]] by {
                if i < j {
                    assert(p[i] == prev_p[i]);
                } else if i > j {
                    assert(p[i] == prev_p[i - 1]);
                }
            }
            assert forall|a: int, b: int| 0 <= a < b < out@.len() implies p[a] != p[b] by {
                if a != j && b != j {
                    let a0 = if a < j { a } else { a - 1 };
                    let b0 = if b < j { b } else { b - 1 };
                    assert(p[a] == prev_p[a0] && p[b] == prev_p[b0]);
                } else if a == j {
                    assert(p[b] == prev_p[b - 1]);
                } else {
                    assert(p[a] == prev_p[a]);
                }
            }
            assert forall|a: int, b: int| 0 <= a < b < out@.len() && out@[a].fitness == out@[b].fitness
                implies p[a] < p[b] by {
                if a != j && b != j {
                    let a0 = if a < j { a } else { a - 1 };
                    let b0 = if b < j { b } else { b - 1 };
                    assert(p[a] == prev_p[a0] && p[b] == prev_p[b0]);
                    assert(out@[a] == prev[a0] && out@[b] == prev[b0]);
                } else if a == j {
                    assert(p[b] == prev_p[b - 1]);
                } else {
                    assert(out@[a] == prev[a]);
                    assert(prev[a].fitness > x.fitness);
                }
            }
            vstd::seq_lib::to_multiset_insert(prev, j as int, x);
            assert(out@.to_multiset().add(rest@.to_multiset()) =~= whole.to_multiset());
            assert forall|a: int, b: int| 0 <= a < b < out@.len() implies out@[a].fitness
                >= out@[b].fitness by {
                if b < j {
                } else if b == j {
                } else if a < j {
                    assert(prev[a].fitness > x.fitness);
                    assert(prev[j as int].fitness <= x.fitness);
                } else if a == j {
                    assert(prev[j as int].fitness <= x.fitness);
                    assert(prev[j as int].fitness >= prev[b - 1].fitness);
                } else {
                    assert(prev[a - 1].fitness >= prev[b - 1].fitness);
                }
            }
        }
    }
    proof {
        assert(rest@ =~= Seq::<Individual>::empty());
        vstd::seq_lib::to_multiset_len(rest@);
        assert(out@.to_multiset() =~= whole.to_multiset());
        assert(stable_arrangement(whole, out@, p));
    }
    out
}

/// `r` is the next generation bred from the ranked population `sorted` of
/// `n` with one flip mask per offspring (`n - n / 2` of them): the top `n / 2`
/// unchanged, followed by the top `n - n / 2` with the genes of copy `i`
/// flipped where `flips[i]` marks them, fitness carried over.
pub open spec fn bred_from(r: Seq<Individual>, sorted: Seq<Individual>, flips: Seq<Vec<bool>>) -> bool {
    let h = survivor_count(sorted.len() as int);
    &&& flips.len() == sorted.len() - h
    &&& r.len() == sorted.len()
    &&& forall|i: int| 0 <= i < h ==> r[i] == sorted[i]
    &&& forall|i: int| 0 <= i < flips.len() ==> {
        &&& (#[trigger] r[h + i]).features@ == flipped(sorted[i].features@, flips[i]@)
        &&& r[h + i].fitness == sorted[i].fitness
    }
}

/// The next generation from a ranked population of `n`: the top `n / 2`
/// unchanged, followed by mutated copies of the top `n - n / 2`, where copy
/// `i` is individual `i` with the genes flipped that `flips[i]` marks (its
/// fitness is carried over until it is scored again).
pub fn reproduce(sorted: Vec<Individual>, flips: &Vec<Vec<bool>>) -> (r: Vec<Individual>)
    requires
        flips@.len() == sorted@.len() - survivor_count(sorted@.len() as int),
        forall|i: int| 0 <= i < flips@.len() ==> (#[trigger] flips@[i])@.len() == sorted@[i].features@.len(),
    ensures
        bred_from(r@, sorted@, flips@),
{
    let n = sorted.len();
    let h = n / 2;
    let mut offspring: Vec<Individual> = Vec::with_capacity(n - h);
    let mut i: usize = 0;
    while i < n - h
        invariant
            n == sorted@.len(),
            h == n / 2,
            flips@.len() == n - h,
            forall|k: int| 0 <= k < flips@.len() ==> (#[trigger] flips@[k])@.len() == sorted@[k].features@.len(),
            i <= n - h,
            offspring@.len() == i,
            forall|k: int| 0 <= k < i ==> {
                &&& (#[trigger] offspring@[k]).features@ == flipped(sorted@[k].features@, flips@[k]@)
                &&& offspring@[k].fitness == sorted@[k].fitness
            },
        decreases n - h - i,
    {
        let mut child = sorted[i].duplicate();
        child.apply_flips(&flips[i]);
        offspring.push(child);
        i += 1;
    }
    let mut r = sorted;
    r.truncate(h);
    let ghost children = offspring@;
    r.append(&mut offspring);
    proof {
        assert forall|k: int| 0 <= k < flips@.len() implies {
            &&& (#[trigger] r@[h + k]).features@ == flipped(sorted@[k].features@, flips@[k]@)
            &&& r@[h + k].fitness == sorted@[k].fitness
        } by {
            assert(r@[h + k] == children[k]);
        }
    }
    r
}

} // verus!
