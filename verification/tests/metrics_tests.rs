use gidterm::metrics::{best_value, lower_is_better, MetricValue};

#[test]
fn the_best_of_no_values_is_none() {
    assert_eq!(best_value(&vec![], true), None);
    assert_eq!(best_value(&vec![], false), None);
}

#[test]
fn the_best_value_is_the_lowest_or_the_highest() {
    let values = vec![500_000, -20, 1_250_000, 0, -20];
    assert_eq!(best_value(&values, true), Some(-20));
    assert_eq!(best_value(&values, false), Some(1_250_000));
    assert_eq!(best_value(&vec![7], true), Some(7));
    assert_eq!(best_value(&vec![7], false), Some(7));
    assert_eq!(best_value(&vec![i64::MAX, i64::MIN], true), Some(i64::MIN));
    assert_eq!(best_value(&vec![i64::MIN, i64::MAX], false), Some(i64::MAX));
}

#[test]
fn losses_and_counts_of_faults_are_better_when_lower() {
    assert!(lower_is_better("loss"));
    assert!(lower_is_better("errors"));
    assert!(lower_is_better("warnings"));
    assert!(!lower_is_better("accuracy"));
    assert!(!lower_is_better("Loss"));
    assert!(!lower_is_better(""));
}

#[test]
fn metric_values_convert_between_whole_and_decimal() {
    assert_eq!(MetricValue::Int(3).as_decimal(), Some(3_000_000));
    assert_eq!(MetricValue::Decimal(-2_500_000).as_int(), Some(-2));
    assert_eq!(MetricValue::Int(i64::MAX).as_decimal(), Some(i64::MAX));
    assert_eq!(MetricValue::Bool(true).as_decimal(), None);
    assert_eq!(MetricValue::String("x".to_string()).as_string(), Some("x"));
    assert_eq!(MetricValue::Int(1).as_string(), None);
}
