use fastgen::folds::fold_bounds;
use fastgen::table::{fits_in_memory, selected_indices, split_range, Table};

#[test]
fn fold_bounds_spread_the_remainder() {
    assert_eq!(fold_bounds(10, 3, 0), (0, 4));
    assert_eq!(fold_bounds(10, 3, 1), (4, 7));
    assert_eq!(fold_bounds(10, 3, 2), (7, 10));
    assert_eq!(fold_bounds(7, 1, 0), (0, 7));
}

#[test]
fn folds_cover_every_sample_once() {
    for n in 0..40usize {
        for k in 1..9usize {
            let mut hits = vec![0usize; n];
            for f in 0..k {
                let (s, e) = fold_bounds(n, k, f);
                assert!(s <= e && e <= n);
                let len = e - s;
                assert_eq!(len, n / k + if f < n % k { 1 } else { 0 });
                for h in hits.iter_mut().take(e).skip(s) {
                    *h += 1;
                }
            }
            assert!(hits.iter().all(|h| *h == 1));
        }
    }
}

#[test]
fn more_folds_than_samples_leave_some_empty() {
    assert_eq!(fold_bounds(2, 4, 0), (0, 1));
    assert_eq!(fold_bounds(2, 4, 1), (1, 2));
    assert_eq!(fold_bounds(2, 4, 3), (2, 2));
}

#[test]
fn range_split() {
    let v = vec![1, 2, 3, 4, 5, 6];
    assert_eq!(split_range(&v, 2, 4), (vec![1, 2, 5, 6], vec![3, 4]));
    assert_eq!(split_range(&v, 0, 0), (v.clone(), vec![]));
    assert_eq!(split_range(&v, 0, 6), (vec![], v.clone()));
}

fn table() -> Table<i32> {
    // 5 samples of 3 features: cell (r, c) = 10 * r + c; target r = 100 + r.
    let mut data = Vec::new();
    for r in 0..5 {
        for c in 0..3 {
            data.push(10 * r + c);
        }
    }
    Table::new(data, vec![100, 101, 102, 103, 104], 3).unwrap()
}

#[test]
fn table_shape_is_checked() {
    assert!(Table::new(vec![1, 2, 3], vec![1, 2], 2).is_none());
    assert!(Table::new(vec![1, 2, 3, 4], vec![1, 2], 2).is_some());
    assert!(Table::<i32>::new(vec![], vec![], 4).is_some());
    assert_eq!(table().dimension(), (5, 3));
}

#[test]
fn column_selection() {
    let t = table();
    assert_eq!(t.select_columns(&vec![false, false, false]), None);
    assert_eq!(t.select_columns(&vec![true, false, true]), Some(vec![0, 2, 10, 12, 20, 22, 30, 32, 40, 42]));
    assert_eq!(t.select_columns(&vec![false, true, false]), Some(vec![1, 11, 21, 31, 41]));
    assert_eq!(selected_indices(&vec![false, true, true, false, true]), vec![1, 2, 4]);
}

#[test]
fn mask_length_is_checked() {
    let t = table();
    assert!(t.check_mask(&vec![true, true, true]).is_ok());
    assert_eq!(t.check_mask(&vec![true]), Err(fastgen::model::ConfigError::MaskLength));
}

#[test]
fn fold_split_of_a_table() {
    let t = table();
    let (train, valid) = t.split_for_cross_validation(2, 0);
    assert_eq!(valid.dimension(), (3, 3));
    assert_eq!(train.dimension(), (2, 3));
    assert_eq!(valid.target(), &vec![100, 101, 102]);
    assert_eq!(train.target(), &vec![103, 104]);
    assert_eq!(valid.data(), &vec![0, 1, 2, 10, 11, 12, 20, 21, 22]);
    assert_eq!(train.data(), &vec![30, 31, 32, 40, 41, 42]);
    let (train, valid) = t.split_for_cross_validation(2, 1);
    assert_eq!(valid.target(), &vec![103, 104]);
    assert_eq!(train.target(), &vec![100, 101, 102]);
    assert_eq!(train.dimension().0 + valid.dimension().0, 5);
}

#[test]
fn split_sizes_add_up() {
    let t = table();
    for k in 1..=5 {
        let mut total_valid = 0;
        for f in 0..k {
            let (train, valid) = t.split_for_cross_validation(k, f);
            assert_eq!(train.dimension().0 + valid.dimension().0, 5);
            total_valid += valid.dimension().0;
        }
        assert_eq!(total_valid, 5);
    }
}

#[test]
fn memory_estimates() {
    assert_eq!(table().size_in_bytes(4), Some(80));
    assert_eq!(table().size_in_bytes(0), Some(0));
    assert_eq!(table().size_in_bytes(usize::MAX), None);
    assert!(fits_in_memory(4096, 3, 2));
    assert!(!fits_in_memory(5120, 3, 2));
    assert!(fits_in_memory(5119, 3, 2));
    assert!(fits_in_memory(0, u64::MAX, u64::MAX));
}

#[test]
fn validation_targets_concatenate_to_all_targets() {
    let t = table();
    for k in 1..=8 {
        let mut all = Vec::new();
        for f in 0..k {
            let (_train, valid) = t.split_for_cross_validation(k, f);
            all.extend_from_slice(valid.target());
        }
        assert_eq!(&all, t.target());
    }
}

#[test]
fn selection_commutes_with_split() {
    let t = table();
    let mask = vec![true, false, true];
    let whole = t.select_columns(&mask).unwrap();
    let (train, valid) = t.split_for_cross_validation(3, 1);
    // 5 rows in 3 folds: fold 1 validates rows 2..4; two selected cells per row.
    assert_eq!(valid.select_columns(&mask).unwrap(), whole[4..8].to_vec());
    let mut rest = whole[0..4].to_vec();
    rest.extend_from_slice(&whole[8..10]);
    assert_eq!(train.select_columns(&mask).unwrap(), rest);
}
