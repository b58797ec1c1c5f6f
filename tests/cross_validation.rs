use fastgen::config::GaConfig;
use fastgen::cv::{validate_run, CvAggregate};
use fastgen::fitness::{key_bits, order_key};
use fastgen::model::{check_model, ConfigError, ModelName};

fn key(x: f32) -> i32 {
    order_key(x.to_bits())
}

fn value(k: i32) -> f32 {
    f32::from_bits(key_bits(k))
}

#[test]
fn average_of_two_folds() {
    let mut agg = CvAggregate::new(2);
    agg.record(0, key(-1.0), vec![true, false]);
    agg.record(1, key(-3.0), vec![false, true]);
    let s = agg.finish().unwrap();
    let errors: Vec<f32> = s.fold_errors.iter().map(|e| value(*e)).collect();
    assert_eq!(errors, vec![1.0, 3.0]);
    let average = errors.iter().sum::<f32>() / errors.len() as f32;
    assert_eq!(average, 2.0);
    assert_eq!(s.best_fold, 0);
    assert_eq!(s.best_mask, vec![true, false]);
}

#[test]
fn best_mask_ignores_completion_order() {
    let errors = [4.0f32, 2.5, 0.5, 3.0];
    let orders = [[0, 1, 2, 3], [3, 2, 1, 0], [2, 0, 3, 1], [1, 3, 0, 2]];
    for order in orders {
        let mut agg = CvAggregate::new(4);
        for f in order {
            assert!(agg.finish().is_none());
            agg.record(f, key(-errors[f]), vec![f == 0, f == 1, f == 2, f == 3]);
            assert!(agg.is_recorded(f));
        }
        let s = agg.finish().unwrap();
        assert_eq!(s.best_fold, 2);
        assert_eq!(s.best_mask, vec![false, false, true, false]);
        let got: Vec<f32> = s.fold_errors.iter().map(|e| value(*e)).collect();
        assert_eq!(got, errors.to_vec());
    }
}

#[test]
fn equal_errors_pick_the_first_fold() {
    let mut agg = CvAggregate::new(3);
    agg.record(2, key(-1.0), vec![true]);
    agg.record(1, key(-1.0), vec![false]);
    agg.record(0, key(-2.0), vec![true]);
    let s = agg.finish().unwrap();
    assert_eq!(s.best_fold, 1);
    assert_eq!(s.best_mask, vec![false]);
}

#[test]
fn single_fold() {
    let mut agg = CvAggregate::new(1);
    assert_eq!(agg.k_folds(), 1);
    assert!(!agg.is_recorded(0));
    agg.record(0, key(-0.75), vec![true, true]);
    let s = agg.finish().unwrap();
    assert_eq!(value(s.fold_errors[0]), 0.75);
    assert_eq!(s.best_mask, vec![true, true]);
}

#[test]
fn no_fold_gives_no_summary() {
    assert!(CvAggregate::new(0).finish().is_none());
}

#[test]
fn configuration_errors() {
    let ok = GaConfig { population_size: 10, generations: 3 };
    assert_eq!(validate_run(ModelName::LinearRegression, ok, 2), Ok(()));
    assert_eq!(validate_run(ModelName::DecisionTreeRegressor, ok, 2), Err(ConfigError::UnsupportedModel));
    let empty = GaConfig { population_size: 0, generations: 3 };
    assert_eq!(validate_run(ModelName::LinearRegression, empty, 2), Err(ConfigError::EmptyPopulation));
    assert_eq!(validate_run(ModelName::LinearRegression, ok, 0), Err(ConfigError::NoFolds));
    assert_eq!(check_model(ModelName::LinearRegression), Ok(()));
    assert_eq!(check_model(ModelName::DecisionTreeRegressor), Err(ConfigError::UnsupportedModel));
}
