use accord::errors::AccordError;
use accord::rational::Factor;
use accord::stats::{AlnData, AlnStats, DistributionStats};

fn factor(num: u64, den: u64) -> Factor {
    Factor::new(num, den).unwrap()
}

#[test]
fn quantiles_nearest_rank_small_dataset() {
    let values: Vec<u32> = vec![1, 2, 3, 4, 5];
    let factors = vec![factor(0, 1), factor(1, 2), factor(1, 1)];
    let stats = DistributionStats::from_numbers(values, &factors).unwrap();
    assert_eq!(stats.quantiles.len(), 3);
    assert_eq!(stats.quantiles[0].value, 1);
    assert_eq!(stats.quantiles[1].value, 3);
    assert_eq!(stats.quantiles[2].value, 5);
}

#[test]
fn quantiles_unsorted_input_is_sorted_first() {
    let values: Vec<u32> = vec![5, 1, 4, 2, 3];
    let factors = vec![factor(1, 2)];
    let stats = DistributionStats::from_numbers(values, &factors).unwrap();
    assert_eq!(stats.quantiles[0].value, 3);
}

#[test]
fn quantile_small_factor_clamps_to_first_element() {
    let values: Vec<u32> = vec![10, 20, 30, 40, 50];
    let factors = vec![factor(1, 10)];
    let stats = DistributionStats::from_numbers(values, &factors).unwrap();
    // round(5 * 0.1) = 1, one-indexed rank 1 is the smallest element
    assert_eq!(stats.quantiles[0].value, 10);
}

#[test]
fn variance_and_std_deviation_population_form() {
    let values: Vec<u32> = vec![2, 4, 4, 4, 5, 5, 7, 9];
    let factors: Vec<Factor> = Vec::new();
    let stats = DistributionStats::from_numbers(values, &factors).unwrap();
    let v = stats.variance();
    // population variance is exactly 4
    assert_eq!(v.num, 4 * v.den);
    assert_eq!(v.num, 256);
    assert_eq!(v.den, 64);
    let std_dev = ((v.num as f64) / (v.den as f64)).sqrt();
    assert_eq!(std_dev, 2.0);
}

#[test]
fn mean_is_exact() {
    let values: Vec<u32> = vec![2, 4, 4, 4, 5, 5, 7, 9];
    let factors: Vec<Factor> = Vec::new();
    let stats = DistributionStats::from_numbers(values, &factors).unwrap();
    let m = stats.mean();
    assert_eq!(m.num, 40);
    assert_eq!(m.den, 8);
}

#[test]
fn from_numbers_empty_fails() {
    let values: Vec<u32> = Vec::new();
    let factors = vec![factor(1, 2)];
    let r = DistributionStats::from_numbers(values, &factors);
    assert_eq!(r.unwrap_err(), AccordError::InsufficientData);
}

#[test]
fn from_numbers_fewer_values_than_factors_fails() {
    let values: Vec<u32> = vec![7];
    let factors = vec![factor(1, 4), factor(1, 2), factor(3, 4)];
    let r = DistributionStats::from_numbers(values, &factors);
    assert_eq!(r.unwrap_err(), AccordError::InsufficientData);
}

#[test]
fn factor_rejects_ratio_above_one() {
    let r = Factor::new(3, 2);
    assert_eq!(r.unwrap_err(), AccordError::InvalidConfiguration);
}

#[test]
fn factor_rejects_zero_denominator() {
    let r = Factor::new(0, 0);
    assert_eq!(r.unwrap_err(), AccordError::InvalidConfiguration);
}

#[test]
fn aln_data_extraction_missing_field_fails() {
    let r = AlnData::new(100, 60, 0, None, Some(3));
    assert_eq!(r.unwrap_err(), AccordError::RecordExtraction);
    let r = AlnData::new(100, 60, 0, Some(40), None);
    assert_eq!(r.unwrap_err(), AccordError::RecordExtraction);
}

#[test]
fn aln_stats_builds_four_parallel_distributions() {
    let reads = vec![
        AlnData::new(100, 60, 0, Some(90), Some(2)).unwrap(),
        AlnData::new(120, 50, 0, Some(80), Some(5)).unwrap(),
        AlnData::new(110, 55, 0, Some(85), Some(3)).unwrap(),
    ];
    let factors = vec![factor(1, 2)];
    let stats = AlnStats::from_data(&reads, &factors).unwrap();
    assert_eq!(stats.get_sample_size(), 3);
    assert_eq!(stats.length_distribution.sample_size, 3);
    assert_eq!(stats.quality_distribution.sample_size, 3);
    assert_eq!(stats.score_distribution.sample_size, 3);
    assert_eq!(stats.editing_distance_distribution.sample_size, 3);
    assert_eq!(stats.length_distribution.quantiles[0].value, 110);
    assert_eq!(stats.quality_distribution.quantiles[0].value, 55);
    assert_eq!(stats.score_distribution.quantiles[0].value, 85);
    assert_eq!(stats.editing_distance_distribution.quantiles[0].value, 3);
}

#[test]
fn aln_stats_empty_fails() {
    let reads: Vec<AlnData> = Vec::new();
    let factors = vec![factor(1, 2)];
    let r = AlnStats::from_data(&reads, &factors);
    assert_eq!(r.unwrap_err(), AccordError::InsufficientData);
}
