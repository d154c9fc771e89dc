//! The parser for the output of a training run: epochs, loss, accuracy
//! and learning rate.

use crate::metrics::collect_metrics;
use crate::metrics::entries_view;
use crate::metrics::entry_keys;
use crate::metrics::entry_values;
use crate::metrics::MetricValue;
use crate::metrics::TaskMetrics;
use crate::metrics::ValueView;
use crate::parsers::build_output::group_whole;
use crate::parsers::last_captures;
use crate::parsers::last_groups;
use crate::parsers::metrics_view;
use crate::parsers::ratio;
use crate::parsers::share;
use crate::parsers::MetricsView;
use crate::pattern::group;
use crate::pattern::group_text;
use crate::pattern::groups_view;
use crate::pattern::pattern_valid;
use crate::pattern::Pattern;
use crate::text::chars_of;
use crate::text::decimal_value;
use crate::text::lines_of;
use crate::text::owned;
use crate::text::parse_decimal;
use crate::text::parse_whole;
use crate::text::split_lines;
use vstd::prelude::*;

verus! {

/// A line that tells the epoch and the number of epochs.
pub const EPOCH: &'static str = "(?i)\\bepoch\\s*[:=]?\\s*(\\d+)\\s*/\\s*(\\d+)";

/// A line that tells the loss, as a number or as no number.
pub const LOSS: &'static str = "(?i)\\bloss\\s*[:=]\\s*(nan|[\\d.]+)";

/// A line that tells the accuracy.
pub const ACCURACY: &'static str = "(?i)\\b(?:accuracy|acc)\\s*[:=]\\s*([\\d.]+)";

/// A line that tells the learning rate.
pub const LEARNING_RATE: &'static str = "(?i)\\blr\\s*[:=]\\s*([\\d.]+)";

/// The error line that reports a loss that is no number.
pub const DIVERGED: &'static str = "Loss is NaN - training diverged";

/// What the patterns found in the output of a training run.
#[derive(Debug)]
pub struct TrainingReadings {
    /// The epoch and the number of epochs.
    pub epoch: Option<(i64, i64)>,
    /// The loss, in millionths.
    pub loss: Option<i64>,
    /// Whether the loss was told as no number.
    pub loss_is_nan: bool,
    /// The accuracy, in millionths.
    pub accuracy: Option<i64>,
    /// The learning rate, in millionths.
    pub learning_rate: Option<i64>,
}

/// Whether `text` writes "nan", in small or capital letters.
pub open spec fn writes_nan(text: Seq<char>) -> bool {
    &&& text.len() == 3
    &&& (text[0] == 'n' || text[0] == 'N')
    &&& (text[1] == 'a' || text[1] == 'A')
    &&& (text[2] == 'n' || text[2] == 'N')
}

/// The decimal number that the first group of the match writes.
pub open spec fn group_decimal(groups: Option<Seq<Option<Seq<char>>>>) -> Option<int> {
    match groups {
        Some(g) => match group_text(g, 1) {
            Some(text) => decimal_value(text),
            None => None,
        },
        None => None,
    }
}

/// Readings with plain numbers.
pub ghost struct TrainingView {
    pub epoch: Option<(int, int)>,
    pub loss: Option<int>,
    pub loss_is_nan: bool,
    pub accuracy: Option<int>,
    pub learning_rate: Option<int>,
}

impl View for TrainingReadings {
    type V = TrainingView;

    open spec fn view(&self) -> TrainingView {
        TrainingView {
            epoch: match self.epoch {
                Some((e, n)) => Some((e as int, n as int)),
                None => None,
            },
            loss: match self.loss {
                Some(v) => Some(v as int),
                None => None,
            },
            loss_is_nan: self.loss_is_nan,
            accuracy: match self.accuracy {
                Some(v) => Some(v as int),
                None => None,
            },
            learning_rate: match self.learning_rate {
                Some(v) => Some(v as int),
                None => None,
            },
        }
    }
}

impl MLTrainingParser {
    /// What the patterns find in the lines of `text`: each value from
    /// the last line that tells it.
    pub open spec fn training_readings(&self, text: Seq<char>) -> TrainingView {
    let lines = lines_of(text);
    let loss = last_groups(lines, self.loss);
    TrainingView {
        epoch: match last_groups(lines, self.epoch) {
            Some(g) => Some((group_whole(g, 1, 0), group_whole(g, 2, 0))),
            None => None,
        },
        loss: group_decimal(loss),
        loss_is_nan: match loss {
            Some(g) => match group_text(g, 1) {
                Some(t) => writes_nan(t),
                None => false,
            },
            None => false,
        },
        accuracy: group_decimal(last_groups(lines, self.accuracy)),
        learning_rate: group_decimal(last_groups(lines, self.learning_rate)),
    }
}
}

/// The entry of a decimal metric: there is one where the value is known.
pub open spec fn decimal_entry(name: Seq<char>, value: Option<int>) -> Seq<(Seq<char>, ValueView)> {
    match value {
        Some(v) => seq![(name, ValueView::Decimal(v))],
        None => Seq::empty(),
    }
}

/// The metrics that the readings give rise to, in the order in which
/// they are stored.
pub open spec fn training_entries(r: TrainingView) -> Seq<(Seq<char>, ValueView)> {
    (match r.epoch {
        Some((epoch, total)) => seq![
            ("epoch"@, ValueView::Int(epoch)),
            ("total_epochs"@, ValueView::Int(total)),
        ],
        None => Seq::empty(),
    }) + decimal_entry("loss"@, r.loss) + decimal_entry("accuracy"@, r.accuracy) + decimal_entry(
        "lr"@,
        r.learning_rate,
    )
}

/// The metrics of a training run by its readings. The progress is the
/// share of the epochs done. A loss that is no number is an error.
pub open spec fn training_metrics(r: TrainingView) -> MetricsView {
    let entries = training_entries(r);
    MetricsView {
        progress: match r.epoch {
            Some((epoch, total)) => share(epoch, total),
            None => 0,
        },
        keys: entry_keys(entries, entries.len() as int),
        values: entry_values(entries, entries.len() as int),
        phase: None,
        errors: if r.loss_is_nan {
            seq![DIVERGED@]
        } else {
            Seq::empty()
        },
    }
}

fn push_decimal_entry(entries: &mut Vec<(String, MetricValue)>, name: &str, value: Option<i64>)
    ensures
        entries_view(final(entries)@) == entries_view(old(entries)@) + decimal_entry(
            name@,
            match value {
                Some(v) => Some(v as int),
                None => None,
            },
        ),
{
    match value {
        Some(v) => {
            entries.push((owned(name), MetricValue::Decimal(v)));
        },
        None => {},
    }
    assert(entries_view(entries@) =~= entries_view(old(entries)@) + decimal_entry(
        name@,
        match value {
            Some(v) => Some(v as int),
            None => None,
        },
    ));
}

/// The metrics of a training run by its readings.
pub fn assemble(readings: TrainingReadings) -> (m: TaskMetrics)
    ensures
        m.wf(),
        metrics_view(&m) == training_metrics(readings@),
{
    let mut entries: Vec<(String, MetricValue)> = Vec::new();
    match readings.epoch {
        Some((epoch, total)) => {
            entries.push((owned("epoch"), MetricValue::Int(epoch)));
            entries.push((owned("total_epochs"), MetricValue::Int(total)));
        },
        None => {},
    }
    assert(entries_view(entries@) =~= match readings@.epoch {
        Some((epoch, total)) => seq![
            ("epoch"@, ValueView::Int(epoch)),
            ("total_epochs"@, ValueView::Int(total)),
        ],
        None => Seq::empty(),
    });
    push_decimal_entry(&mut entries, "loss", readings.loss);
    push_decimal_entry(&mut entries, "accuracy", readings.accuracy);
    push_decimal_entry(&mut entries, "lr", readings.learning_rate);
    let progress: u32 = match readings.epoch {
        Some((epoch, total)) => ratio(epoch, total),
        None => 0,
    };
    let mut errors: Vec<String> = Vec::new();
    if readings.loss_is_nan {
        errors.push(owned(DIVERGED));
        assert(errors.deep_view() =~= seq![DIVERGED@]);
    } else {
        assert(errors.deep_view() =~= Seq::<Seq<char>>::empty());
    }
    let metrics = collect_metrics(entries);
    TaskMetrics { progress, metrics, phase: None, errors }
}

fn is_nan_text(text: &str) -> (b: bool)
    ensures
        b == writes_nan(text@),
{
    let v = chars_of(text);
    v.len() == 3 && (v[0] == 'n' || v[0] == 'N') && (v[1] == 'a' || v[1] == 'A') && (v[2] == 'n' || v[2]
        == 'N')
}

fn first_decimal(groups: &Option<Vec<Option<String>>>) -> (r: Option<i64>)
    ensures
        match r {
            Some(v) => group_decimal(groups_view(*groups)) == Some(v as int),
            None => group_decimal(groups_view(*groups)) is None,
        },
{
    match groups {
        Some(g) => match group(g, 1) {
            Some(text) => parse_decimal(text.as_str()),
            None => None,
        },
        None => None,
    }
}

fn whole_group(groups: &Vec<Option<String>>, i: usize) -> (v: i64)
    ensures
        v == group_whole(groups_view(Some(*groups))->0, i as int, 0),
{
    match group(groups, i) {
        Some(text) => match parse_whole(text.as_str()) {
            Some(v) => v,
            None => 0,
        },
        None => 0,
    }
}

/// The parser for the output of a training run.
pub struct MLTrainingParser {
    pub epoch: Pattern,
    pub loss: Pattern,
    pub accuracy: Pattern,
    pub learning_rate: Pattern,
}

/// Whether the `regex` crate accepts every pattern of the parser.
pub open spec fn patterns_valid() -> bool {
    &&& pattern_valid(EPOCH@)
    &&& pattern_valid(LOSS@)
    &&& pattern_valid(ACCURACY@)
    &&& pattern_valid(LEARNING_RATE@)
}

impl MLTrainingParser {
    /// Each pattern is the one it is meant to be.
    pub open spec fn wf(&self) -> bool {
        &&& self.epoch.source() == EPOCH@
        &&& self.loss.source() == LOSS@
        &&& self.accuracy.source() == ACCURACY@
        &&& self.learning_rate.source() == LEARNING_RATE@
    }

    /// The parser, unless the `regex` crate refuses one of its patterns.
    pub fn new() -> (r: Option<Self>)
        ensures
            r is Some <==> patterns_valid(),
            r matches Some(p) ==> p.wf(),
    {
        let epoch = match Pattern::new(EPOCH) {
            Some(p) => p,
            None => {
                return None;
            },
        };
        let loss = match Pattern::new(LOSS) {
            Some(p) => p,
            None => {
                return None;
            },
        };
        let accuracy = match Pattern::new(ACCURACY) {
            Some(p) => p,
            None => {
                return None;
            },
        };
        let learning_rate = match Pattern::new(LEARNING_RATE) {
            Some(p) => p,
            None => {
                return None;
            },
        };
        Some(MLTrainingParser { epoch, loss, accuracy, learning_rate })
    }

    /// The name of the parser.
    pub fn name(&self) -> (s: &'static str)
        ensures
            s@ == "ml-training"@,
    {
        "ml-training"
    }

    /// The task types whose output the parser is meant for.
    pub fn supported_types(&self) -> (types: Vec<&'static str>)
        ensures
            types@.len() == 4,
            types@[0]@ == "ml_training"@,
            types@[1]@ == "ml-training"@,
            types@[2]@ == "training"@,
            types@[3]@ == "MLTraining"@,
    {
        let mut types: Vec<&'static str> = Vec::new();
        types.push("ml_training");
        types.push("ml-training");
        types.push("training");
        types.push("MLTraining");
        types
    }

    /// Whether `text` looks like the output of a training run: it tells an
    /// epoch or a loss.
    pub open spec fn sniffs(&self, text: Seq<char>) -> bool {
        self.epoch.matches(text) || self.loss.matches(text)
    }

    /// Whether `text` looks like the output of a training run.
    pub fn can_parse(&self, text: &str) -> (b: bool)
        ensures
            b == self.sniffs(text@),
    {
        self.epoch.is_match(text) || self.loss.is_match(text)
    }

    /// What the patterns find in `text`.
    pub fn read(&self, text: &str) -> (readings: TrainingReadings)
        ensures
            readings@ == self.training_readings(text@),
    {
        let lines = split_lines(text);
        let epoch = match last_captures(&self.epoch, &lines) {
            Some(g) => Some((whole_group(&g, 1), whole_group(&g, 2))),
            None => None,
        };
        let loss_groups = last_captures(&self.loss, &lines);
        let loss = first_decimal(&loss_groups);
        let loss_is_nan = match &loss_groups {
            Some(g) => match group(g, 1) {
                Some(t) => is_nan_text(t.as_str()),
                None => false,
            },
            None => false,
        };
        let accuracy = first_decimal(&last_captures(&self.accuracy, &lines));
        let learning_rate = first_decimal(&last_captures(&self.learning_rate, &lines));
        TrainingReadings { epoch, loss, loss_is_nan, accuracy, learning_rate }
    }

    /// The metrics of the training run whose output is `text`.
    pub fn parse(&self, text: &str) -> (m: TaskMetrics)
        ensures
            m.wf(),
            metrics_view(&m) == training_metrics(self.training_readings(text@)),
    {
        assemble(self.read(text))
    }
}

} // verus!
