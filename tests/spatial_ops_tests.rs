use spatial_stats::{
    find_contrast, find_gradient, find_max, find_mean, find_min, pad_replicate, spatial_ops,
    SpatialOpsError, StatisticOperations, ACCEPTED_STATISTIC_NAMES,
};

const ALL_OPS: [StatisticOperations; 5] = [
    StatisticOperations::Contrast,
    StatisticOperations::Maximum,
    StatisticOperations::Gradient,
    StatisticOperations::Minimum,
    StatisticOperations::Mean,
];

fn grid_3x3() -> Vec<u8> {
    vec![1, 2, 3, 4, 5, 6, 7, 8, 9]
}

#[test]
fn parse_max_aliases() {
    assert_eq!(
        StatisticOperations::from_string_result("max"),
        Ok(StatisticOperations::Maximum)
    );
    assert_eq!(
        StatisticOperations::from_string_result("maximum"),
        Ok(StatisticOperations::Maximum)
    );
}

#[test]
fn parse_other_names() {
    assert_eq!(
        StatisticOperations::from_string_result("contrast"),
        Ok(StatisticOperations::Contrast)
    );
    assert_eq!(
        StatisticOperations::from_string_result("gradient"),
        Ok(StatisticOperations::Gradient)
    );
    assert_eq!(
        StatisticOperations::from_string_result("min"),
        Ok(StatisticOperations::Minimum)
    );
    assert_eq!(
        StatisticOperations::from_string_result("minimum"),
        Ok(StatisticOperations::Minimum)
    );
    assert_eq!(
        StatisticOperations::from_string_result("mean"),
        Ok(StatisticOperations::Mean)
    );
    assert_eq!(
        StatisticOperations::from_string_result("avg"),
        Ok(StatisticOperations::Mean)
    );
}

#[test]
fn parse_bogus_is_rejected() {
    match StatisticOperations::from_string_result("bogus") {
        Err(SpatialOpsError::InvalidStatisticName { name, accepted }) => {
            assert_eq!(name, "bogus");
            assert_eq!(accepted, ACCEPTED_STATISTIC_NAMES);
        }
        other => panic!("unexpected result {:?}", other),
    }
}

#[test]
fn parse_is_case_sensitive_and_exact() {
    assert!(StatisticOperations::from_string_result("MAX").is_err());
    assert!(StatisticOperations::from_string_result("maxi").is_err());
    assert!(StatisticOperations::from_string_result("").is_err());
    assert!(StatisticOperations::from_string_result("mean ").is_err());
}

#[test]
fn min_max_bound_every_element() {
    let data: Vec<u16> = vec![700, 3, 65535, 42, 3, 9000];
    let lo = find_min(&data);
    let hi = find_max(&data);
    assert_eq!(lo, 3);
    assert_eq!(hi, 65535);
    for d in &data {
        assert!(lo <= *d && *d <= hi);
    }
}

#[test]
fn min_max_of_empty_window_are_the_seeds() {
    let data: Vec<u8> = vec![];
    assert_eq!(find_min(&data), u8::MAX);
    assert_eq!(find_max(&data), 0);
}

#[test]
fn gradient_is_max_minus_min() {
    let data: Vec<u8> = vec![17, 200, 4, 99];
    assert_eq!(find_gradient(&data), 196);
    assert_eq!(find_gradient(&data), find_max(&data) - find_min(&data));
    let flat: Vec<u32> = vec![5, 5, 5];
    assert_eq!(find_gradient(&flat), 0);
}

#[test]
fn contrast_of_all_maximum_samples() {
    let a: Vec<u8> = vec![u8::MAX; 9];
    assert_eq!(find_contrast(&a), 0);
    let b: Vec<u16> = vec![u16::MAX; 25];
    assert_eq!(find_contrast(&b), 0);
    let c: Vec<u32> = vec![u32::MAX; 4];
    assert_eq!(find_contrast(&c), 0);
}

#[test]
fn contrast_of_all_zero_samples() {
    let a: Vec<u8> = vec![0; 9];
    assert_eq!(find_contrast(&a), 0);
}

#[test]
fn contrast_exact_values() {
    // (200 - 0) / min(200 + 0 + 1, 255) = 200 / 201 = 0
    let a: Vec<u8> = vec![0, 200];
    assert_eq!(find_contrast(&a), 0);
    // (250 - 10) / min(261, 255) = 240 / 255 = 0
    let b: Vec<u8> = vec![10, 250, 100];
    assert_eq!(find_contrast(&b), 0);
}

#[test]
fn mean_is_truncated_average() {
    let a: Vec<u8> = vec![1, 2];
    assert_eq!(find_mean(&a), 1);
    let b: Vec<u8> = grid_3x3();
    assert_eq!(find_mean(&b), 5);
    let c: Vec<u16> = vec![10, 11, 11];
    assert_eq!(find_mean(&c), 10);
}

#[test]
fn mean_of_equal_values() {
    let a: Vec<u8> = vec![77; 49];
    assert_eq!(find_mean(&a), 77);
    let b: Vec<u16> = vec![u16::MAX; 1000];
    assert_eq!(find_mean(&b), u16::MAX);
    let c: Vec<u32> = vec![u32::MAX; 300];
    assert_eq!(find_mean(&c), u32::MAX);
}

#[test]
fn reducers_ignore_order() {
    let a: Vec<u8> = vec![9, 1, 250, 7, 7, 30];
    let b: Vec<u8> = vec![7, 30, 250, 9, 7, 1];
    for op in ALL_OPS {
        assert_eq!(op.reduce(&a), op.reduce(&b));
    }
}

#[test]
fn single_sample_window() {
    let a: Vec<u16> = vec![1234];
    assert_eq!(find_min(&a), 1234);
    assert_eq!(find_max(&a), 1234);
    assert_eq!(find_mean(&a), 1234);
    assert_eq!(find_gradient(&a), 0);
    assert_eq!(find_contrast(&a), 0);
}

#[test]
fn pad_replicates_edges() {
    let input: Vec<u8> = vec![1, 2, 3, 4];
    let padded = pad_replicate(&input, 2, 2, 1);
    assert_eq!(padded, vec![1, 1, 2, 2, 1, 1, 2, 2, 3, 3, 4, 4, 3, 3, 4, 4]);
}

#[test]
fn maximum_on_3x3_grid() {
    let input = grid_3x3();
    let mut out = vec![0u8; 9];
    assert_eq!(
        spatial_ops(&input, &mut out, 1, 3, 3, StatisticOperations::Maximum),
        Ok(())
    );
    assert_eq!(out[4], 9);
    assert_eq!(out[0], 5);
    assert_eq!(out, vec![5, 6, 6, 8, 9, 9, 8, 9, 9]);
}

#[test]
fn mean_on_3x3_grid() {
    let input = grid_3x3();
    let mut out = vec![0u8; 9];
    assert_eq!(
        spatial_ops(&input, &mut out, 1, 3, 3, StatisticOperations::Mean),
        Ok(())
    );
    assert_eq!(out[4], 5);
    // corner window: 1 1 2 / 1 1 2 / 4 4 5, sum 21
    assert_eq!(out[0], 2);
}

#[test]
fn minimum_and_gradient_on_3x3_grid() {
    let input = grid_3x3();
    let mut lo = vec![0u8; 9];
    let mut grad = vec![0u8; 9];
    spatial_ops(&input, &mut lo, 1, 3, 3, StatisticOperations::Minimum).unwrap();
    spatial_ops(&input, &mut grad, 1, 3, 3, StatisticOperations::Gradient).unwrap();
    assert_eq!(lo, vec![1, 1, 2, 1, 1, 2, 4, 4, 5]);
    assert_eq!(grad[4], 8);
    assert_eq!(grad[0], 4);
}

#[test]
fn radius_zero_keeps_pixels() {
    let input: Vec<u16> = vec![3, 60000, 8, 0, 17, 9];
    for op in [
        StatisticOperations::Minimum,
        StatisticOperations::Maximum,
        StatisticOperations::Mean,
    ] {
        let mut out = vec![1u16; 6];
        spatial_ops(&input, &mut out, 0, 3, 2, op).unwrap();
        assert_eq!(out, input);
    }
    for op in [StatisticOperations::Gradient, StatisticOperations::Contrast] {
        let mut out = vec![1u16; 6];
        spatial_ops(&input, &mut out, 0, 3, 2, op).unwrap();
        assert_eq!(out, vec![0u16; 6]);
    }
}

#[test]
fn apply_is_deterministic() {
    let input: Vec<u8> = (0..20u8).map(|v| v.wrapping_mul(37)).collect();
    for op in ALL_OPS {
        let mut first = vec![0u8; 20];
        let mut second = vec![99u8; 20];
        spatial_ops(&input, &mut first, 2, 5, 4, op).unwrap();
        spatial_ops(&input, &mut second, 2, 5, 4, op).unwrap();
        assert_eq!(first, second);
    }
}

#[test]
fn radius_larger_than_grid() {
    let input: Vec<u8> = vec![4, 8];
    let mut out = vec![0u8; 2];
    spatial_ops(&input, &mut out, 3, 2, 1, StatisticOperations::Maximum).unwrap();
    assert_eq!(out, vec![8, 8]);
    spatial_ops(&input, &mut out, 3, 2, 1, StatisticOperations::Minimum).unwrap();
    assert_eq!(out, vec![4, 4]);
}

#[test]
fn dimension_mismatch_on_input() {
    let input: Vec<u8> = vec![1, 2, 3];
    let mut out = vec![7u8; 4];
    assert_eq!(
        spatial_ops(&input, &mut out, 1, 2, 2, StatisticOperations::Mean),
        Err(SpatialOpsError::DimensionMismatch)
    );
    assert_eq!(out, vec![7u8; 4]);
}

#[test]
fn dimension_mismatch_on_output() {
    let input: Vec<u8> = vec![1, 2, 3, 4];
    let mut out = vec![7u8; 5];
    assert_eq!(
        spatial_ops(&input, &mut out, 1, 2, 2, StatisticOperations::Mean),
        Err(SpatialOpsError::DimensionMismatch)
    );
    assert_eq!(out, vec![7u8; 5]);
}

#[test]
fn dimension_mismatch_on_overflowing_size() {
    let input: Vec<u8> = vec![1];
    let mut out = vec![7u8; 1];
    assert_eq!(
        spatial_ops(&input, &mut out, 0, usize::MAX, 2, StatisticOperations::Minimum),
        Err(SpatialOpsError::DimensionMismatch)
    );
}

#[test]
fn radius_too_large_is_rejected() {
    let input: Vec<u8> = vec![1, 2, 3, 4];
    let mut out = vec![7u8; 4];
    assert_eq!(
        spatial_ops(&input, &mut out, usize::MAX / 2, 2, 2, StatisticOperations::Maximum),
        Err(SpatialOpsError::RadiusTooLarge)
    );
    assert_eq!(
        spatial_ops(&input, &mut out, usize::MAX / 4, 2, 2, StatisticOperations::Maximum),
        Err(SpatialOpsError::RadiusTooLarge)
    );
    assert_eq!(out, vec![7u8; 4]);
}

#[test]
fn empty_grid_is_accepted() {
    let input: Vec<u8> = vec![];
    let mut out: Vec<u8> = vec![];
    assert_eq!(
        spatial_ops(&input, &mut out, 2, 0, 5, StatisticOperations::Mean),
        Ok(())
    );
}
