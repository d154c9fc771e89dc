//! The advisor: rules that look at the metrics of a task and at their
//! history, and say what may be wrong and what to do about it.
//!
//! Thresholds are in millionths, as the metrics are.

use crate::history::greatest;
use crate::history::least;
use crate::history::slope;
use crate::history::tail;
use crate::history::values_of;
use crate::history::TaskMetricHistory;
use crate::metrics::clamped;
use crate::metrics::MetricValue;
use crate::metrics::TaskMetrics;
use crate::metrics::ValueView;
use crate::text::chars_of;
use crate::text::contains_text;
use crate::text::decimal;
use crate::text::owned;
use crate::text::push_decimal;
use crate::text::push_scaled;
use crate::text::push_str;
use crate::text::round_to;
use crate::text::rounded;
use crate::text::scaled_text;
use crate::text::str_contains;
use crate::text::string_of;
use vstd::prelude::*;

verus! {

/// How grave an advisory is.
#[derive(Debug, Clone, Copy, PartialEq, Eq, Structural, PartialOrd, Ord)]
pub enum Severity {
    Info,
    Warning,
    Critical,
}

impl Severity {
    /// The severity in four capital letters.
    pub open spec fn label(self) -> Seq<char> {
        match self {
            Severity::Info => "INFO"@,
            Severity::Warning => "WARN"@,
            Severity::Critical => "CRIT"@,
        }
    }

    /// The severity in four capital letters.
    pub fn to_string(&self) -> (s: String)
        ensures
            s@ == self.label(),
    {
        match self {
            Severity::Info => owned("INFO"),
            Severity::Warning => owned("WARN"),
            Severity::Critical => owned("CRIT"),
        }
    }
}

/// What the advisor has to say.
#[derive(Debug)]
pub struct Advisory {
    pub severity: Severity,
    pub message: String,
    pub suggestion: String,
    /// The label of the semantic command that would help, if there is one.
    pub auto_action: Option<String>,
}

/// An advisory with its texts as sequences of characters.
pub ghost struct AdvisoryView {
    pub severity: Severity,
    pub message: Seq<char>,
    pub suggestion: Seq<char>,
    pub auto_action: Option<Seq<char>>,
}

impl View for Advisory {
    type V = AdvisoryView;

    open spec fn view(&self) -> AdvisoryView {
        AdvisoryView {
            severity: self.severity,
            message: self.message@,
            suggestion: self.suggestion@,
            auto_action: match self.auto_action {
                Some(a) => Some(a@),
                None => None,
            },
        }
    }
}

/// The loss may be this high, in millionths, once a task is well under way.
pub const HIGH_LOSS: i64 = 1_000_000;

/// From this progress on, in millionths, a high loss is worth a word.
pub const HIGH_LOSS_FROM: u32 = 300_000;

/// A loss that moves by less than this, in millionths, has plateaued.
pub const LOSS_PLATEAU: i64 = 5_000;

/// An accuracy above this, in millionths, is near its end.
pub const HIGH_ACCURACY: i64 = 990_000;

/// An accuracy that moves by less than this, in millionths, has plateaued.
pub const ACCURACY_PLATEAU: i64 = 1_000;

/// More error lines than this are a spike.
pub const MANY_ERRORS: usize = 5;

/// A loss that falls faster than this, in millionths per snapshot,
/// converges.
pub const FALLING_TREND: i128 = -10_000;

/// Whether some line of `errors` speaks of a number that is none.
pub open spec fn mentions_nan(errors: Seq<String>) -> bool {
    exists|i: int|
        0 <= i < errors.len() && (contains_text((#[trigger] errors[i])@, "NaN"@) || contains_text(
            errors[i]@,
            "nan"@,
        ))
}

/// The loss where it is a decimal number.
pub open spec fn decimal_loss(metrics: &TaskMetrics) -> Option<int> {
    if metrics.metrics.has("loss"@) {
        match metrics.metrics.at("loss"@)@ {
            ValueView::Decimal(v) => Some(v),
            _ => None,
        }
    } else {
        None
    }
}

/// The number of build errors where it is a whole number.
pub open spec fn error_count(metrics: &TaskMetrics) -> Option<int> {
    if metrics.metrics.has("errors"@) {
        match metrics.metrics.at("errors"@)@ {
            ValueView::Int(v) => Some(v),
            _ => None,
        }
    } else {
        None
    }
}

/// Whether the metric `name` has plateaued over the last `window`
/// snapshots of `history`, within `threshold`.
pub open spec fn plateaued(history: &TaskMetricHistory, name: Seq<char>, window: int, threshold: int) -> bool {
    let values = values_of(tail(history.snaps(), window), name);
    &&& window > 0
    &&& values.len() == window
    &&& greatest(values) - least(values) < threshold
}

/// The advisory on a loss that is no number: it is given when an error
/// line speaks of one.
pub open spec fn loss_nan(metrics: &TaskMetrics) -> Option<AdvisoryView> {
    if mentions_nan(metrics.errors@) {
        Some(
            AdvisoryView {
                severity: Severity::Critical,
                message: "Loss is NaN - training has diverged"@,
                suggestion: "Reduce learning rate, check data for NaN values, or restore last checkpoint"@,
                auto_action: Some("early_stop"@),
            },
        )
    } else {
        None
    }
}

/// The advisory on a loss that has plateaued: it is given when there are
/// twenty snapshots and the loss has moved by less than five thousandths
/// over them.
pub open spec fn loss_plateau(history: Option<&TaskMetricHistory>) -> Option<AdvisoryView> {
    match history {
        Some(h) if h.snaps().len() >= 20 && plateaued(h, "loss"@, 20, LOSS_PLATEAU as int) => Some(
            AdvisoryView {
                severity: Severity::Warning,
                message: "Loss has plateaued - no significant improvement in recent epochs"@,
                suggestion: "Try: reduce learning rate, increase model capacity, or add data augmentation"@,
                auto_action: Some("adjust_lr"@),
            },
        ),
        _ => None,
    }
}

/// The advisory on a loss that is still high: it is given from three
/// tenths of the way on when the loss is above one.
pub open spec fn high_loss(metrics: &TaskMetrics) -> Option<AdvisoryView> {
    match decimal_loss(metrics) {
        Some(loss) if metrics.progress >= HIGH_LOSS_FROM && loss > HIGH_LOSS => Some(
            AdvisoryView {
                severity: Severity::Warning,
                message: "Loss is still high ("@ + scaled_text(rounded(loss, 1000), 3) + ") at "@
                    + scaled_text(rounded(metrics.progress as int, 10_000), 0) + "% progress"@,
                suggestion: "Check: learning rate may be too high, data may have issues, or model may be too small"@,
                auto_action: None,
            },
        ),
        _ => None,
    }
}

/// The advisory on an accuracy that is saturated: it is given when there
/// are twenty snapshots, the last accuracy is above ninety-nine hundredths
/// and it has moved by less than a thousandth over the last ten snapshots.
pub open spec fn accuracy_saturation(history: Option<&TaskMetricHistory>) -> Option<AdvisoryView> {
    match history {
        Some(h) if h.snaps().len() >= 20 && values_of(h.snaps(), "accuracy"@).len() > 0 && values_of(
            h.snaps(),
            "accuracy"@,
        ).last() > HIGH_ACCURACY && plateaued(h, "accuracy"@, 10, ACCURACY_PLATEAU as int) => Some(
            AdvisoryView {
                severity: Severity::Info,
                message: "Accuracy saturated at "@ + scaled_text(
                    rounded(values_of(h.snaps(), "accuracy"@).last() as int, 1000),
                    1,
                ) + "% - model may be overfitting"@,
                suggestion: "Consider early stopping, check validation accuracy, or add regularization"@,
                auto_action: Some("save_checkpoint"@),
            },
        ),
        _ => None,
    }
}

/// The advisory on a spike of errors: it is given when there are more
/// than five error lines.
pub open spec fn error_spike(metrics: &TaskMetrics) -> Option<AdvisoryView> {
    if metrics.errors@.len() > MANY_ERRORS {
        Some(
            AdvisoryView {
                severity: Severity::Warning,
                message: decimal(metrics.errors@.len()) + " errors detected in recent output"@,
                suggestion: "Review error log for recurring issues"@,
                auto_action: None,
            },
        )
    } else {
        None
    }
}

/// The trend of the loss over the last ten snapshots.
pub open spec fn loss_trend(history: &TaskMetricHistory) -> Option<int> {
    slope(values_of(tail(history.snaps(), 10), "loss"@))
}

/// The advisory on a training that converges well: it is given when
/// there are ten snapshots, the loss falls by more than a hundredth a
/// snapshot, the task is more than half way, and the loss is below a half.
pub open spec fn converging_well(metrics: &TaskMetrics, history: Option<&TaskMetricHistory>) -> Option<
    AdvisoryView,
> {
    match history {
        Some(h) if h.snaps().len() >= 10 => match (loss_trend(h), decimal_loss(metrics)) {
            (Some(trend), Some(loss)) if trend < FALLING_TREND && metrics.progress > 500_000 && loss
                < 500_000 => Some(
                AdvisoryView {
                    severity: Severity::Info,
                    message: "Training converging well (loss: "@ + scaled_text(rounded(loss, 1000), 3)
                        + ", trend: "@ + scaled_text(rounded(clamped(trend), 100), 4) + ")"@,
                    suggestion: "Looking good! Consider saving a checkpoint."@,
                    auto_action: Some("save_checkpoint"@),
                },
            ),
            _ => None,
        },
        _ => None,
    }
}

/// The advisory on a build that failed: it is given when the metrics
/// count one build error or more.
pub open spec fn build_failure(metrics: &TaskMetrics) -> Option<AdvisoryView> {
    match error_count(metrics) {
        Some(count) if count > 0 => Some(
            AdvisoryView {
                severity: Severity::Critical,
                message: decimal(count as nat) + " compilation error(s) detected"@,
                suggestion: "Fix compilation errors before continuing"@,
                auto_action: None,
            },
        ),
        _ => None,
    }
}

/// One of the rules of the advisor.
#[derive(Debug, Clone, Copy, PartialEq, Eq, Structural)]
pub enum AdvisoryRule {
    LossNan,
    LossPlateau,
    HighLoss,
    AccuracySaturation,
    ErrorSpike,
    ConvergingWell,
    BuildFailure,
}

fn decimal_metric(metrics: &TaskMetrics, name: &str) -> (r: Option<i64>)
    requires
        metrics.wf(),
    ensures
        r == if metrics.metrics.has(name@) {
            match metrics.metrics.at(name@)@ {
                ValueView::Decimal(v) => Some(v as i64),
                _ => None,
            }
        } else {
            None
        },
{
    match metrics.metrics.get(name) {
        Some(MetricValue::Decimal(v)) => Some(*v),
        _ => None,
    }
}

fn advisory(severity: Severity, message: String, suggestion: &str, auto_action: Option<&str>) -> (a:
    Advisory)
    ensures
        a@ == (AdvisoryView {
            severity,
            message: message@,
            suggestion: suggestion@,
            auto_action: match auto_action {
                Some(label) => Some(label@),
                None => None,
            },
        }),
{
    Advisory {
        severity,
        message,
        suggestion: owned(suggestion),
        auto_action: match auto_action {
            Some(label) => Some(owned(label)),
            None => None,
        },
    }
}

impl AdvisoryRule {
    /// What the rule says of `metrics` and `history`, if it says anything.
    pub open spec fn verdict(self, metrics: &TaskMetrics, history: Option<&TaskMetricHistory>) -> Option<
        AdvisoryView,
    > {
        match self {
            AdvisoryRule::LossNan => loss_nan(metrics),
            AdvisoryRule::LossPlateau => loss_plateau(history),
            AdvisoryRule::HighLoss => high_loss(metrics),
            AdvisoryRule::AccuracySaturation => accuracy_saturation(history),
            AdvisoryRule::ErrorSpike => error_spike(metrics),
            AdvisoryRule::ConvergingWell => converging_well(metrics, history),
            AdvisoryRule::BuildFailure => build_failure(metrics),
        }
    }

    /// What the rule says of `metrics` and `history`, if it says anything.
    pub fn evaluate(&self, metrics: &TaskMetrics, history: Option<&TaskMetricHistory>) -> (r: Option<
        Advisory,
    >)
        requires
            metrics.wf(),
            history matches Some(h) ==> h.wf(),
        ensures
            match r {
                Some(a) => self.verdict(metrics, history) == Some(a@),
                None => self.verdict(metrics, history) is None,
            },
    {
        match self {
            AdvisoryRule::LossNan => {
                let mut i: usize = 0;
                while i < metrics.errors.len()
                    invariant
                        *self is LossNan,
                        i <= metrics.errors@.len(),
                        forall|j: int|
                            0 <= j < i ==> !contains_text((#[trigger] metrics.errors@[j])@, "NaN"@)
                                && !contains_text(metrics.errors@[j]@, "nan"@),
                    decreases metrics.errors@.len() - i,
                {
                    let line = metrics.errors[i].as_str();
                    if str_contains(line, "NaN") || str_contains(line, "nan") {
                        assert(contains_text(metrics.errors@[i as int]@, "NaN"@) || contains_text(
                            metrics.errors@[i as int]@,
                            "nan"@,
                        ));
                        return Some(
                            advisory(
                                Severity::Critical,
                                owned("Loss is NaN - training has diverged"),
                                "Reduce learning rate, check data for NaN values, or restore last checkpoint",
                                Some("early_stop"),
                            ),
                        );
                    }
                    i += 1;
                }
                None
            },
            AdvisoryRule::LossPlateau => {
                let h = match history {
                    Some(h) => h,
                    None => {
                        return None;
                    },
                };
                if h.snapshots().len() < 20 {
                    return None;
                }
                if h.is_plateaued("loss", 20, LOSS_PLATEAU) {
                    Some(
                        advisory(
                            Severity::Warning,
                            owned("Loss has plateaued - no significant improvement in recent epochs"),
                            "Try: reduce learning rate, increase model capacity, or add data augmentation",
                            Some("adjust_lr"),
                        ),
                    )
                } else {
                    None
                }
            },
            AdvisoryRule::HighLoss => {
                if metrics.progress < HIGH_LOSS_FROM {
                    return None;
                }
                match decimal_metric(metrics, "loss") {
                    Some(loss) => {
                        if loss > HIGH_LOSS {
                            let mut text = chars_of("Loss is still high (");
                            push_scaled(&mut text, round_to(loss, 1000), 3);
                            push_str(&mut text, ") at ");
                            push_scaled(&mut text, round_to(metrics.progress as i64, 10_000), 0);
                            push_str(&mut text, "% progress");
                            Some(
                                advisory(
                                    Severity::Warning,
                                    string_of(&text),
                                    "Check: learning rate may be too high, data may have issues, or model may be too small",
                                    None,
                                ),
                            )
                        } else {
                            None
                        }
                    },
                    None => None,
                }
            },
            AdvisoryRule::AccuracySaturation => {
                let h = match history {
                    Some(h) => h,
                    None => {
                        return None;
                    },
                };
                if h.snapshots().len() < 20 {
                    return None;
                }
                match h.latest_metric("accuracy") {
                    Some(acc) => {
                        if acc > HIGH_ACCURACY && h.is_plateaued("accuracy", 10, ACCURACY_PLATEAU) {
                            let mut text = chars_of("Accuracy saturated at ");
                            push_scaled(&mut text, round_to(acc, 1000), 1);
                            push_str(&mut text, "% - model may be overfitting");
                            Some(
                                advisory(
                                    Severity::Info,
                                    string_of(&text),
                                    "Consider early stopping, check validation accuracy, or add regularization",
                                    Some("save_checkpoint"),
                                ),
                            )
                        } else {
                            None
                        }
                    },
                    None => None,
                }
            },
            AdvisoryRule::ErrorSpike => {
                if metrics.errors.len() > MANY_ERRORS {
                    let mut text: Vec<char> = Vec::new();
                    push_decimal(&mut text, metrics.errors.len() as u64);
                    push_str(&mut text, " errors detected in recent output");
                    Some(
                        advisory(
                            Severity::Warning,
                            string_of(&text),
                            "Review error log for recurring issues",
                            None,
                        ),
                    )
                } else {
                    None
                }
            },
            AdvisoryRule::ConvergingWell => {
                let h = match history {
                    Some(h) => h,
                    None => {
                        return None;
                    },
                };
                if h.snapshots().len() < 10 {
                    return None;
                }
                let trend = match h.trend("loss", 10) {
                    Some(trend) => trend,
                    None => {
                        return None;
                    },
                };
                if !(trend < FALLING_TREND && metrics.progress > 500_000) {
                    return None;
                }
                match decimal_metric(metrics, "loss") {
                    Some(loss) => {
                        if loss < 500_000 {
                            let shown: i64 = if trend < i64::MIN as i128 {
                                i64::MIN
                            } else {
                                trend as i64
                            };
                            let mut text = chars_of("Training converging well (loss: ");
                            push_scaled(&mut text, round_to(loss, 1000), 3);
                            push_str(&mut text, ", trend: ");
                            push_scaled(&mut text, round_to(shown, 100), 4);
                            push_str(&mut text, ")");
                            Some(
                                advisory(
                                    Severity::Info,
                                    string_of(&text),
                                    "Looking good! Consider saving a checkpoint.",
                                    Some("save_checkpoint"),
                                ),
                            )
                        } else {
                            None
                        }
                    },
                    None => None,
                }
            },
            AdvisoryRule::BuildFailure => {
                match metrics.metrics.get("errors") {
                    Some(MetricValue::Int(count)) => {
                        if *count > 0 {
                            let mut text: Vec<char> = Vec::new();
                            push_decimal(&mut text, *count as u64);
                            push_str(&mut text, " compilation error(s) detected");
                            Some(
                                advisory(
                                    Severity::Critical,
                                    string_of(&text),
                                    "Fix compilation errors before continuing",
                                    None,
                                ),
                            )
                        } else {
                            None
                        }
                    },
                    _ => None,
                }
            },
        }
    }
}

/// The rules of the advisor, in the order in which they are asked.
pub open spec fn builtin_rules() -> Seq<AdvisoryRule> {
    seq![
        AdvisoryRule::LossNan,
        AdvisoryRule::LossPlateau,
        AdvisoryRule::HighLoss,
        AdvisoryRule::AccuracySaturation,
        AdvisoryRule::ErrorSpike,
        AdvisoryRule::ConvergingWell,
        AdvisoryRule::BuildFailure,
    ]
}

/// What the first `n` of `rules` say of `metrics` and `history`, in order.
pub open spec fn verdicts(
    rules: Seq<AdvisoryRule>,
    metrics: &TaskMetrics,
    history: Option<&TaskMetricHistory>,
    n: int,
) -> Seq<AdvisoryView>
    decreases n,
{
    if n <= 0 {
        Seq::empty()
    } else {
        match rules[n - 1].verdict(metrics, history) {
            Some(a) => verdicts(rules, metrics, history, n - 1).push(a),
            None => verdicts(rules, metrics, history, n - 1),
        }
    }
}

/// The advisor.
pub struct SmartAdvisor {
    rules: Vec<AdvisoryRule>,
}

impl SmartAdvisor {
    /// The rules, in the order in which they are asked.
    pub closed spec fn rules(&self) -> Seq<AdvisoryRule> {
        self.rules@
    }

    /// An advisor with all the rules there are.
    pub fn new() -> (a: Self)
        ensures
            a.rules() == builtin_rules(),
    {
        let mut rules: Vec<AdvisoryRule> = Vec::new();
        rules.push(AdvisoryRule::LossNan);
        rules.push(AdvisoryRule::LossPlateau);
        rules.push(AdvisoryRule::HighLoss);
        rules.push(AdvisoryRule::AccuracySaturation);
        rules.push(AdvisoryRule::ErrorSpike);
        rules.push(AdvisoryRule::ConvergingWell);
        rules.push(AdvisoryRule::BuildFailure);
        assert(rules@ =~= builtin_rules());
        SmartAdvisor { rules }
    }

    /// What the rules say of `metrics` and `history`: the advisory of each
    /// rule that gives one, in the order of the rules.
    pub fn evaluate(&self, metrics: &TaskMetrics, history: Option<&TaskMetricHistory>) -> (list: Vec<
        Advisory,
    >)
        requires
            metrics.wf(),
            history matches Some(h) ==> h.wf(),
        ensures
            list@.map_values(|a: Advisory| a@) == verdicts(
                self.rules(),
                metrics,
                history,
                self.rules().len() as int,
            ),
    {
        let mut list: Vec<Advisory> = Vec::new();
        let mut i: usize = 0;
        assert(list@.map_values(|a: Advisory| a@) =~= Seq::<AdvisoryView>::empty());
        while i < self.rules.len()
            invariant
                metrics.wf(),
                history matches Some(h) ==> h.wf(),
                i <= self.rules@.len(),
                list@.map_values(|a: Advisory| a@) == verdicts(self.rules(), metrics, history, i as int),
            decreases self.rules@.len() - i,
        {
            match self.rules[i].evaluate(metrics, history) {
                Some(a) => {
                    let ghost before = list@.map_values(|a: Advisory| a@);
                    list.push(a);
                    assert(list@.map_values(|a: Advisory| a@) =~= before.push(a@));
                },
                None => {},
            }
            i += 1;
        }
        list
    }
}

} // verus!
