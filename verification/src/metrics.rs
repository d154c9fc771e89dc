//! What a parser reads off the output of a task.
//!
//! Numbers are fixed-point: the progress and the decimal metric values
//! count millionths, so that 1.0 is written 1_000_000.

use crate::strmap::keyed;
use crate::strmap::lemma_stored_through;
use crate::strmap::stored_keys;
use crate::strmap::stored_values;
use crate::strmap::StrMap;
use crate::text::str_eq;
use vstd::prelude::*;

verus! {

/// The value of a metric.
#[derive(Debug)]
pub enum MetricValue {
    /// A decimal number, in millionths.
    Decimal(i64),
    Int(i64),
    String(String),
    Bool(bool),
}

/// A metric value with its text as a sequence of characters.
pub ghost enum ValueView {
    Decimal(int),
    Int(int),
    String(Seq<char>),
    Bool(bool),
}

impl View for MetricValue {
    type V = ValueView;

    open spec fn view(&self) -> ValueView {
        match self {
            MetricValue::Decimal(v) => ValueView::Decimal(*v as int),
            MetricValue::Int(v) => ValueView::Int(*v as int),
            MetricValue::String(s) => ValueView::String(s@),
            MetricValue::Bool(b) => ValueView::Bool(*b),
        }
    }
}

/// `v` kept within the range of `i64`.
pub open spec fn clamped(v: int) -> int {
    if v > i64::MAX {
        i64::MAX as int
    } else if v < i64::MIN {
        i64::MIN as int
    } else {
        v
    }
}

/// `a / b` rounded towards nought, for a positive `b`.
pub open spec fn toward_zero(a: int, b: int) -> int {
    if a >= 0 {
        a / b
    } else {
        -((-a) / b)
    }
}

impl MetricValue {
    /// The value as a decimal number, in millionths: a decimal as it is, a
    /// whole number times a million, kept within the range of `i64`.
    pub fn as_decimal(&self) -> (r: Option<i64>)
        ensures
            r == match self@ {
                ValueView::Decimal(v) => Some(v as i64),
                ValueView::Int(v) => Some(clamped(v * 1_000_000) as i64),
                _ => None,
            },
    {
        match self {
            MetricValue::Decimal(v) => Some(*v),
            MetricValue::Int(v) => {
                let wide: i128 = *v as i128 * 1_000_000;
                if wide > i64::MAX as i128 {
                    Some(i64::MAX)
                } else if wide < i64::MIN as i128 {
                    Some(i64::MIN)
                } else {
                    Some(wide as i64)
                }
            },
            _ => None,
        }
    }

    /// The value as a whole number: a whole number as it is, a decimal
    /// without what stands behind the point.
    pub fn as_int(&self) -> (r: Option<i64>)
        ensures
            r == match self@ {
                ValueView::Int(v) => Some(v as i64),
                ValueView::Decimal(v) => Some(toward_zero(v, 1_000_000) as i64),
                _ => None,
            },
    {
        match self {
            MetricValue::Int(v) => Some(*v),
            MetricValue::Decimal(v) => {
                if *v >= 0 {
                    Some(*v / 1_000_000)
                } else if *v == i64::MIN {
                    Some(-9_223_372_036_854i64)
                } else {
                    Some(-((-*v) / 1_000_000))
                }
            },
            _ => None,
        }
    }

    /// The value as text, where it is text.
    pub fn as_string(&self) -> (r: Option<&str>)
        ensures
            match r {
                Some(s) => self@ == ValueView::String(s@),
                None => !(self@ is String),
            },
    {
        match self {
            MetricValue::String(s) => Some(s.as_str()),
            _ => None,
        }
    }
}

/// What was read off the output of a task.
pub struct TaskMetrics {
    /// The progress, in millionths.
    pub progress: u32,
    /// The metrics, by name.
    pub metrics: StrMap<MetricValue>,
    /// The phase the task is in.
    pub phase: Option<String>,
    /// The lines that report errors.
    pub errors: Vec<String>,
}

impl TaskMetrics {
    /// The metrics are a sound map.
    pub open spec fn wf(&self) -> bool {
        self.metrics.wf()
    }

    /// Whether nothing was read: no progress, no metric, no error.
    pub open spec fn is_blank(&self) -> bool {
        self.progress == 0 && self.metrics.keys().len() == 0 && self.errors@.len() == 0
    }

    /// Metrics that say nothing.
    pub fn empty() -> (m: Self)
        ensures
            m.wf(),
            m.is_blank(),
            m.phase is None,
    {
        TaskMetrics { progress: 0, metrics: StrMap::new(), phase: None, errors: Vec::new() }
    }

    /// Whether something was read: some progress, a metric or an error.
    /// Only such metrics take the place of the metrics known before.
    pub fn has_content(&self) -> (b: bool)
        requires
            self.wf(),
        ensures
            b == !self.is_blank(),
    {
        self.progress > 0 || !self.metrics.is_empty() || self.errors.len() > 0
    }
}

/// The entries with their texts as sequences of characters.
pub open spec fn entries_view(entries: Seq<(String, MetricValue)>) -> Seq<(Seq<char>, ValueView)> {
    Seq::new(entries.len(), |i: int| (entries[i].0@, entries[i].1@))
}

/// The keys of the map made by storing the first `n` of `entries`, one
/// after the other.
pub open spec fn entry_keys(entries: Seq<(Seq<char>, ValueView)>, n: int) -> Seq<Seq<char>> {
    stored_keys(entries, n)
}

/// The values of the map made by storing the first `n` of `entries`, one
/// after the other.
pub open spec fn entry_values(entries: Seq<(Seq<char>, ValueView)>, n: int) -> Seq<ValueView> {
    stored_values(entries, n)
}

/// The values of a map of metrics, as views.
pub open spec fn value_views(map: &StrMap<MetricValue>) -> Seq<ValueView> {
    Seq::new(map.values().len(), |i: int| map.values()[i]@)
}

/// The map made by storing the entries one after the other.
pub fn collect_metrics(entries: Vec<(String, MetricValue)>) -> (map: StrMap<MetricValue>)
    ensures
        map.wf(),
        map.keys() == entry_keys(entries_view(entries@), entries@.len() as int),
        value_views(&map) == entry_values(entries_view(entries@), entries@.len() as int),
{
    let ghost pairs = keyed(entries@);
    let ghost see = |v: MetricValue| v@;
    let map = StrMap::from_entries(entries);
    proof {
        lemma_stored_through(pairs, see, pairs.len() as int);
        assert(pairs.map_values(|e: (Seq<char>, MetricValue)| (e.0, see(e.1))) =~= entries_view(entries@));
        assert(value_views(&map) =~= map.values().map_values(see));
    }
    map
}

/// Whether the lower of two values of the metric `name` is the better
/// one: so it is of a loss and of the counts of errors and of warnings; of
/// every other metric the higher value is the better one.
pub open spec fn lower_wins(name: Seq<char>) -> bool {
    name == "loss"@ || name == "errors"@ || name == "warnings"@
}

/// Whether the lower of two values of the metric `name` is the better one.
pub fn lower_is_better(name: &str) -> (b: bool)
    ensures
        b == lower_wins(name@),
{
    str_eq(name, "loss") || str_eq(name, "errors") || str_eq(name, "warnings")
}

/// Whether `best` is one of `values` and none of them is better: none
/// lower where the lower value is the better one, else none higher.
pub open spec fn is_best(values: Seq<i64>, lower: bool, best: i64) -> bool {
    &&& values.contains(best)
    &&& forall|i: int|
        0 <= i < values.len() ==> if lower {
            best <= #[trigger] values[i]
        } else {
            best >= values[i]
        }
}

/// The best of `values`: the lowest where `lower` is set, else the
/// highest; none where there is no value.
pub fn best_value(values: &Vec<i64>, lower: bool) -> (r: Option<i64>)
    ensures
        match r {
            Some(best) => is_best(values@, lower, best),
            None => values@.len() == 0,
        },
{
    if values.len() == 0 {
        return None;
    }
    let mut best: i64 = values[0];
    let mut i: usize = 1;
    assert(values@.take(1)[0] == best);
    while i < values.len()
        invariant
            1 <= i <= values@.len(),
            is_best(values@.take(i as int), lower, best),
        decreases values@.len() - i,
    {
        let ghost seen = values@.take(i as int);
        let ghost before = best;
        let v: i64 = values[i];
        if (lower && v < best) || (!lower && v > best) {
            best = v;
        }
        proof {
            let now = values@.take(i + 1);
            assert(now == seen.push(v));
            if best == v {
                assert(now[i as int] == best);
            } else {
                let at = seen.index_of(before);
                assert(now[at] == best);
            }
            assert forall|j: int| 0 <= j < now.len() implies if lower {
                best <= #[trigger] now[j]
            } else {
                best >= now[j]
            } by {
                if j < i {
                    assert(now[j] == seen[j]);
                }
            }
        }
        i += 1;
    }
    assert(values@.take(values@.len() as int) == values@);
    Some(best)
}

/// The best of a metric's values is one and no more: two values that are
/// each the best of the same values are the same.
pub proof fn lemma_best_is_one(values: Seq<i64>, lower: bool, one: i64, other: i64)
    requires
        is_best(values, lower, one),
        is_best(values, lower, other),
    ensures
        one == other,
{
    let i = values.index_of(one);
    let j = values.index_of(other);
    assert(values[i] == one && values[j] == other);
}

} // verus!
