use fastgen::individual::{copy_mask, draw_flips, Individual};

#[test]
fn all_true_genome() {
    let g = Individual::new_all_true(5);
    assert_eq!(g.features, vec![true; 5]);
    assert_eq!(g.fitness, 0);
}

#[test]
fn random_genome_has_requested_length() {
    let g = Individual::new(7);
    assert_eq!(g.features.len(), 7);
    assert_eq!(g.fitness, 0);
    assert_eq!(Individual::new(0).features.len(), 0);
}

#[test]
fn flips_are_applied_gene_by_gene() {
    let mut g = Individual::from_mask(vec![true, false, true, false]);
    g.fitness = -9;
    g.apply_flips(&vec![true, true, false, false]);
    assert_eq!(g.features, vec![false, true, true, false]);
    assert_eq!(g.fitness, -9);
}

#[test]
fn duplicate_copies_mask_and_fitness() {
    let mut g = Individual::from_mask(vec![false, true]);
    g.fitness = 3;
    let d = g.duplicate();
    assert_eq!(d.features, g.features);
    assert_eq!(d.fitness, 3);
    assert_eq!(copy_mask(&vec![true, false, true]), vec![true, false, true]);
}

#[test]
fn mutation_keeps_length_and_fitness() {
    let mut g = Individual::new_all_true(50);
    g.fitness = 12;
    g.mutate();
    assert_eq!(g.features.len(), 50);
    assert_eq!(g.fitness, 12);
}

#[test]
fn mutation_rate_is_one_percent() {
    let genes = 100usize;
    let clones = 2000usize;
    let parent = Individual::new_all_true(genes);
    let mut flipped = 0usize;
    for _ in 0..clones {
        let mut c = parent.duplicate();
        c.mutate();
        flipped += c.features.iter().filter(|g| !**g).count();
    }
    let rate = flipped as f64 / (genes * clones) as f64;
    assert!((rate - 0.01).abs() < 0.003, "rate {}", rate);
}

#[test]
fn flip_draws_have_requested_length() {
    assert_eq!(draw_flips(33).len(), 33);
}
