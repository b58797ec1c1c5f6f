use fastgen::evaluate::evaluate_fitness;
use fastgen::fitness::{key_bits, order_key, Scoring, FAILURE_FITNESS};
use fastgen::individual::Individual;
use fastgen::model::{ConfigError, ModelName};
use fastgen::table::Table;

fn key(x: f32) -> i32 {
    order_key(x.to_bits())
}

fn table() -> Table<i32> {
    Table::new(vec![1, 2, 3, 4, 5, 6], vec![10, 20], 3).unwrap()
}

#[test]
fn empty_mask_is_not_scored() {
    let g = Individual::from_mask(vec![false, false, false]);
    let r = evaluate_fitness(&g, &table(), ModelName::LinearRegression, |_c: &Vec<i32>, _n: usize, _t: &Vec<i32>| {
        panic!("an empty selection must not be scored")
    });
    assert_eq!(r, Ok(0));
}

#[test]
fn selected_columns_reach_the_scorer() {
    let g = Individual::from_mask(vec![true, false, true]);
    let r = evaluate_fitness(&g, &table(), ModelName::LinearRegression, |c: &Vec<i32>, n: usize, t: &Vec<i32>| {
        assert_eq!(c, &vec![1, 3, 4, 6]);
        assert_eq!(n, 2);
        assert_eq!(t, &vec![10, 20]);
        Scoring::Scored { mse_key: key(2.5) }
    });
    assert_eq!(f32::from_bits(key_bits(r.unwrap())), -2.5);
}

#[test]
fn failed_scoring_gives_the_sentinel() {
    let g = Individual::from_mask(vec![false, true, false]);
    let r = evaluate_fitness(&g, &table(), ModelName::LinearRegression, |_c: &Vec<i32>, _n: usize, _t: &Vec<i32>| {
        Scoring::Failed
    });
    assert_eq!(r, Ok(FAILURE_FITNESS));
}

#[test]
fn evaluator_configuration_errors() {
    let g = Individual::from_mask(vec![true, true]);
    let score = |_c: &Vec<i32>, _n: usize, _t: &Vec<i32>| Scoring::NoColumns;
    assert_eq!(evaluate_fitness(&g, &table(), ModelName::LinearRegression, score), Err(ConfigError::MaskLength));
    let g = Individual::from_mask(vec![true, true, true]);
    assert_eq!(
        evaluate_fitness(&g, &table(), ModelName::DecisionTreeRegressor, score),
        Err(ConfigError::UnsupportedModel)
    );
}
