use fastgen::config::GaConfig;
use fastgen::ga::{GaEngine, Phase};
use fastgen::individual::Individual;

fn count_true(mask: &[bool]) -> i32 {
    mask.iter().filter(|g| **g).count() as i32
}

#[test]
fn default_config() {
    let c = GaConfig::default();
    assert_eq!(c.population_size, 50);
    assert_eq!(c.generations, 50);
}

#[test]
fn zero_generations_return_best_initial_genome() {
    let config = GaConfig { population_size: 3, generations: 0 };
    let pop = vec![
        Individual::from_mask(vec![true, false, false]),
        Individual::from_mask(vec![false, true, true]),
        Individual::from_mask(vec![true, true, false]),
    ];
    let mut engine = GaEngine::from_population(config, 3, pop);
    assert_eq!(engine.phase(), Phase::Evaluate);
    assert!(engine.best().is_none());
    engine.record_fitness(&vec![1, 5, 3]);
    assert_eq!(engine.phase(), Phase::Done);
    let best = engine.best().unwrap();
    assert_eq!(best.features, vec![false, true, true]);
    assert_eq!(best.fitness, 5);
}

#[test]
fn negative_generation_count_runs_like_zero() {
    let config = GaConfig { population_size: 2, generations: -4 };
    let pop = vec![Individual::from_mask(vec![true]), Individual::from_mask(vec![false])];
    let mut engine = GaEngine::from_population(config, 1, pop);
    engine.record_fitness(&vec![-3, -1]);
    assert_eq!(engine.phase(), Phase::Done);
    assert_eq!(engine.best().unwrap().features, vec![false]);
}

#[test]
fn generations_keep_size_and_best_never_drops() {
    let config = GaConfig { population_size: 7, generations: 12 };
    let mut engine = GaEngine::new(config, 20);
    let mut previous_best = i32::MIN;
    let mut evaluations = 0;
    while engine.phase() != Phase::Done {
        assert_eq!(engine.phase(), Phase::Evaluate);
        assert_eq!(engine.population().len(), 7);
        let fitness: Vec<i32> = engine.population().iter().map(|g| count_true(&g.features)).collect();
        engine.record_fitness(&fitness);
        evaluations += 1;
        let best = engine.population()[0].fitness;
        assert!(best >= previous_best);
        previous_best = best;
        for w in engine.population().windows(2) {
            assert!(w[0].fitness >= w[1].fitness);
        }
        if engine.phase() == Phase::Reproduce {
            engine.breed();
            assert_eq!(engine.population().len(), 7);
            for g in engine.population() {
                assert_eq!(g.features.len(), 20);
            }
        }
    }
    assert_eq!(evaluations, 12);
    let best = engine.best().unwrap();
    assert_eq!(best.fitness, previous_best);
    assert_eq!(count_true(&best.features), best.fitness);
}

#[test]
fn breeding_with_given_flips() {
    let config = GaConfig { population_size: 4, generations: 2 };
    let pop = vec![
        Individual::from_mask(vec![true, true]),
        Individual::from_mask(vec![false, false]),
        Individual::from_mask(vec![true, false]),
        Individual::from_mask(vec![false, true]),
    ];
    let mut engine = GaEngine::from_population(config, 2, pop);
    engine.record_fitness(&vec![4, 1, 3, 2]);
    assert_eq!(engine.phase(), Phase::Reproduce);
    engine.breed_with(&vec![vec![false, true], vec![true, false]]);
    assert_eq!(engine.phase(), Phase::Evaluate);
    let masks: Vec<Vec<bool>> = engine.population().iter().map(|g| g.features.clone()).collect();
    assert_eq!(masks, vec![vec![true, true], vec![true, false], vec![true, false], vec![false, false]]);
    engine.record_fitness(&vec![4, 3, 3, 0]);
    assert_eq!(engine.phase(), Phase::Done);
    assert_eq!(engine.best().unwrap().features, vec![true, true]);
}
