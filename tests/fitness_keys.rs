use fastgen::fitness::{fitness_of, key_bits, negate, order_key, Scoring, FAILURE_FITNESS, NEG_INF_KEY, POS_INF_KEY};

fn key(x: f32) -> i32 {
    order_key(x.to_bits())
}

fn value(k: i32) -> f32 {
    f32::from_bits(key_bits(k))
}

#[test]
fn keys_of_zeros_and_infinities() {
    assert_eq!(key(0.0), 0);
    assert_eq!(key(-0.0), -1);
    assert_eq!(key(f32::INFINITY), POS_INF_KEY);
    assert_eq!(key(f32::NEG_INFINITY), NEG_INF_KEY);
    assert_eq!(key(-f32::MAX), FAILURE_FITNESS);
}

#[test]
fn keys_order_as_the_floats() {
    let xs = [f32::NEG_INFINITY, -1.0e30, -2.5, -1.0, -1.0e-40, -0.0, 0.0, 1.0e-40, 1.0, 2.5, 1.0e30, f32::INFINITY];
    for w in xs.windows(2) {
        assert!(key(w[0]) < key(w[1]), "{} {}", w[0], w[1]);
    }
}

#[test]
fn keys_round_trip() {
    for x in [0.0f32, -0.0, 1.5, -1.5, 3.25e-12, -7.0e20, f32::MAX, f32::MIN] {
        assert_eq!(value(key(x)).to_bits(), x.to_bits());
    }
    for k in [i32::MIN, -5, -1, 0, 1, 17, i32::MAX] {
        assert_eq!(key(value(k)), k);
    }
}

#[test]
fn negation_of_keys() {
    assert_eq!(negate(key(1.5)), key(-1.5));
    assert_eq!(negate(key(-4.0)), key(4.0));
    assert_eq!(negate(key(0.0)), key(-0.0));
}

#[test]
fn empty_selection_has_zero_fitness() {
    let f = fitness_of(Scoring::NoColumns);
    assert_eq!(f, 0);
    assert_eq!(value(f).to_bits(), 0.0f32.to_bits());
}

#[test]
fn scored_fitness_is_negated_error() {
    assert_eq!(value(fitness_of(Scoring::Scored { mse_key: key(4.0) })), -4.0);
    assert_eq!(value(fitness_of(Scoring::Scored { mse_key: key(0.125) })), -0.125);
    assert_eq!(value(fitness_of(Scoring::Scored { mse_key: key(0.0) })), 0.0);
    assert_eq!(value(fitness_of(Scoring::Scored { mse_key: key(-0.0) })).to_bits(), 0.0f32.to_bits());
}

#[test]
fn failures_get_the_sentinel() {
    assert_eq!(value(fitness_of(Scoring::Failed)), -f32::MAX);
    assert_eq!(fitness_of(Scoring::Scored { mse_key: key(f32::NAN) }), FAILURE_FITNESS);
    assert_eq!(fitness_of(Scoring::Scored { mse_key: key(f32::INFINITY) }), FAILURE_FITNESS);
    assert_eq!(fitness_of(Scoring::Scored { mse_key: key(-3.0) }), FAILURE_FITNESS);
}

#[test]
fn fitness_is_finite_and_not_positive() {
    let outcomes = [
        Scoring::NoColumns,
        Scoring::Failed,
        Scoring::Scored { mse_key: key(2.0) },
        Scoring::Scored { mse_key: key(1.0e38) },
        Scoring::Scored { mse_key: key(f32::NAN) },
    ];
    for s in outcomes {
        let v = value(fitness_of(s));
        assert!(v.is_finite());
        assert!(v <= 0.0);
    }
}
