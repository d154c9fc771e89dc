use gidterm::advisor::{AdvisoryRule, Severity, SmartAdvisor};
use gidterm::history::TaskMetricHistory;
use gidterm::metrics::{MetricValue, TaskMetrics};
use gidterm::strmap::StrMap;

fn make_metrics(progress: u32, loss: i64, errors: Vec<String>) -> TaskMetrics {
    let mut metrics = StrMap::new();
    metrics.insert("loss".to_string(), MetricValue::Decimal(loss));
    TaskMetrics { progress, metrics, phase: None, errors }
}

fn values(loss: i64, accuracy: i64) -> StrMap<i64> {
    let mut m = StrMap::new();
    m.insert("loss".to_string(), loss);
    m.insert("accuracy".to_string(), accuracy);
    m
}

#[test]
fn test_loss_nan_detection() {
    let advisor = SmartAdvisor::new();
    let metrics = make_metrics(500_000, 0, vec!["Loss is NaN - training diverged".to_string()]);

    let advisories = advisor.evaluate(&metrics, None);
    assert!(!advisories.is_empty());
    assert_eq!(advisories[0].severity, Severity::Critical);
    assert_eq!(advisories[0].auto_action.as_deref(), Some("early_stop"));
    assert_eq!(advisories[0].message, "Loss is NaN - training has diverged");
}

#[test]
fn test_high_loss_detection() {
    let advisor = SmartAdvisor::new();
    let metrics = make_metrics(500_000, 2_500_000, vec![]);

    let advisories = advisor.evaluate(&metrics, None);
    assert!(advisories.iter().any(|a| a.severity == Severity::Warning));
    assert_eq!(advisories.len(), 1);
    assert_eq!(advisories[0].message, "Loss is still high (2.500) at 50% progress");
    assert_eq!(advisories[0].auto_action, None);
}

#[test]
fn test_error_spike_detection() {
    let advisor = SmartAdvisor::new();
    let errors: Vec<String> = (0..6).map(|i| format!("error {}", i)).collect();
    let metrics = make_metrics(500_000, 300_000, errors);

    let advisories = advisor.evaluate(&metrics, None);
    assert!(advisories.iter().any(|a| a.message.contains("6 errors")));
}

#[test]
fn test_build_failure_detection() {
    let advisor = SmartAdvisor::new();
    let mut metrics_map = StrMap::new();
    metrics_map.insert("errors".to_string(), MetricValue::Int(3));
    let metrics = TaskMetrics {
        progress: 1_000_000,
        metrics: metrics_map,
        phase: Some("Finished".to_string()),
        errors: vec![],
    };

    let advisories = advisor.evaluate(&metrics, None);
    assert!(advisories.iter().any(|a| a.severity == Severity::Critical));
    assert_eq!(advisories[0].message, "3 compilation error(s) detected");
}

#[test]
fn test_no_false_positives_early() {
    let advisor = SmartAdvisor::new();
    let metrics = make_metrics(100_000, 2_000_000, vec![]);

    let advisories = advisor.evaluate(&metrics, None);
    assert!(advisories.iter().all(|a| !a.message.contains("still high")));
    assert!(advisories.is_empty());
}

#[test]
fn high_loss_thresholds_are_exact() {
    let rule = AdvisoryRule::HighLoss;
    assert!(rule.evaluate(&make_metrics(300_000, 1_000_001, vec![]), None).is_some());
    assert!(rule.evaluate(&make_metrics(299_999, 1_000_001, vec![]), None).is_none());
    assert!(rule.evaluate(&make_metrics(300_000, 1_000_000, vec![]), None).is_none());
    let mut whole = StrMap::new();
    whole.insert("loss".to_string(), MetricValue::Int(5));
    let m = TaskMetrics { progress: 900_000, metrics: whole, phase: None, errors: vec![] };
    assert!(rule.evaluate(&m, None).is_none());
}

#[test]
fn error_spike_needs_more_than_five() {
    let rule = AdvisoryRule::ErrorSpike;
    let five: Vec<String> = (0..5).map(|i| format!("e{}", i)).collect();
    assert!(rule.evaluate(&make_metrics(0, 0, five), None).is_none());
    assert!(AdvisoryRule::LossNan.evaluate(&make_metrics(0, 0, vec!["value is nan".to_string()]), None).is_some());
    assert!(AdvisoryRule::LossNan.evaluate(&make_metrics(0, 0, vec!["Nan".to_string()]), None).is_none());
    let zero = {
        let mut m = StrMap::new();
        m.insert("errors".to_string(), MetricValue::Int(0));
        TaskMetrics { progress: 0, metrics: m, phase: None, errors: vec![] }
    };
    assert!(AdvisoryRule::BuildFailure.evaluate(&zero, None).is_none());
}

#[test]
fn plateau_and_saturation_need_twenty_snapshots() {
    let mut history = TaskMetricHistory::new(0);
    for i in 0..19u64 {
        history.record(i * 1_000, 0, values(500_000, 995_000));
    }
    let metrics = make_metrics(0, 500_000, vec![]);
    assert!(AdvisoryRule::LossPlateau.evaluate(&metrics, Some(&history)).is_none());
    assert!(AdvisoryRule::AccuracySaturation.evaluate(&metrics, Some(&history)).is_none());
    assert!(AdvisoryRule::LossPlateau.evaluate(&metrics, None).is_none());
    history.record(19_000, 0, values(504_999, 995_400));
    let plateau = AdvisoryRule::LossPlateau.evaluate(&metrics, Some(&history)).unwrap();
    assert_eq!(plateau.severity, Severity::Warning);
    assert_eq!(plateau.auto_action.as_deref(), Some("adjust_lr"));
    let saturated = AdvisoryRule::AccuracySaturation.evaluate(&metrics, Some(&history)).unwrap();
    assert_eq!(saturated.severity, Severity::Info);
    assert_eq!(saturated.auto_action.as_deref(), Some("save_checkpoint"));
    assert_eq!(saturated.message, "Accuracy saturated at 995.4% - model may be overfitting".replace("995.4", "99.5"));
    history.record(20_000, 0, values(505_000, 996_000));
    assert!(AdvisoryRule::LossPlateau.evaluate(&metrics, Some(&history)).is_none());
    assert!(AdvisoryRule::AccuracySaturation.evaluate(&metrics, Some(&history)).is_none());
}

#[test]
fn converging_well_wants_a_falling_loss() {
    let mut history = TaskMetricHistory::new(0);
    for i in 0..10u64 {
        history.record(i * 1_000, 600_000, values(400_000 - i as i64 * 20_000, 0));
    }
    let good = make_metrics(600_000, 220_000, vec![]);
    let a = AdvisoryRule::ConvergingWell.evaluate(&good, Some(&history)).unwrap();
    assert_eq!(a.severity, Severity::Info);
    assert_eq!(a.auto_action.as_deref(), Some("save_checkpoint"));
    assert_eq!(a.message, "Training converging well (loss: 0.220, trend: -0.0200)");
    assert!(AdvisoryRule::ConvergingWell.evaluate(&make_metrics(500_000, 220_000, vec![]), Some(&history)).is_none());
    assert!(AdvisoryRule::ConvergingWell.evaluate(&make_metrics(600_000, 500_000, vec![]), Some(&history)).is_none());
    let mut slow = TaskMetricHistory::new(0);
    for i in 0..10u64 {
        slow.record(i * 1_000, 600_000, values(400_000 - i as i64 * 10_000, 0));
    }
    assert!(AdvisoryRule::ConvergingWell.evaluate(&good, Some(&slow)).is_none());
}

#[test]
fn several_rules_may_fire_in_their_order() {
    let advisor = SmartAdvisor::new();
    let errors: Vec<String> = (0..6).map(|_| "NaN".to_string()).collect();
    let mut metrics = make_metrics(400_000, 3_000_000, errors);
    metrics.metrics.insert("errors".to_string(), MetricValue::Int(2));
    let all = advisor.evaluate(&metrics, None);
    let severities: Vec<Severity> = all.iter().map(|a| a.severity).collect();
    assert_eq!(
        severities,
        vec![Severity::Critical, Severity::Warning, Severity::Warning, Severity::Critical]
    );
    assert!(all[2].message.starts_with("6 errors"));
    assert_eq!(Severity::Info.to_string(), "INFO");
    assert_eq!(Severity::Warning.to_string(), "WARN");
    assert_eq!(Severity::Critical.to_string(), "CRIT");
    assert!(Severity::Info < Severity::Warning && Severity::Warning < Severity::Critical);
}
