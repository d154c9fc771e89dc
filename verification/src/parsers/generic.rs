//! The parser of last resort: it knows percentages and counted steps.

use crate::metrics::TaskMetrics;
use crate::parsers::blank_view;
use crate::parsers::build_output::group_whole;
use crate::parsers::found_view;
use crate::parsers::groups_of;
use crate::parsers::line_captures;
use crate::parsers::metrics_view;
use crate::parsers::ratio;
use crate::parsers::share;
use crate::parsers::MetricsView;
use crate::parsers::FULL;
use crate::pattern::group;
use crate::pattern::group_text;
use crate::pattern::groups_view;
use crate::pattern::pattern_valid;
use crate::pattern::Pattern;
use crate::text::decimal_value;
use crate::text::lines_of;
use crate::text::parse_decimal;
use crate::text::parse_whole;
use crate::text::split_lines;
use vstd::prelude::*;

verus! {

/// A percentage.
pub const PERCENT: &'static str = "(\\d+(?:\\.\\d+)?)\\s*%";

/// A count of steps, with the current one and their number.
pub const STEP: &'static str = "\\[(\\d+)/(\\d+)\\]";

/// The progress that a percentage of `percent` millionths stands for, at
/// most 1.0.
pub open spec fn percent_share(percent: int) -> int {
    if percent / 100 > FULL {
        FULL as int
    } else if percent < 0 {
        0
    } else {
        percent / 100
    }
}

/// The progress told by the groups of a percentage.
pub open spec fn percent_progress(groups: Seq<Option<Seq<char>>>) -> int {
    match group_text(groups, 1) {
        Some(text) => match decimal_value(text) {
            Some(p) => percent_share(p),
            None => 0,
        },
        None => 0,
    }
}

/// The progress told by the groups of a count of steps.
pub open spec fn step_progress(groups: Seq<Option<Seq<char>>>) -> int {
    share(group_whole(groups, 1, 0), group_whole(groups, 2, 1))
}

/// The groups of the count of steps in the line at index `i`, if there
/// are any.
pub open spec fn step_at(step: Seq<Option<Seq<Option<Seq<char>>>>>, i: int) -> Option<
    Seq<Option<Seq<char>>>,
> {
    if 0 <= i < step.len() {
        step[i]
    } else {
        None
    }
}

/// The progress told by the last of the first `n` lines that holds a
/// percentage or a count of steps, `percent` and `step` being what was
/// found of each in each line. The percentage counts where a line holds
/// both. Nought where no line holds either.
pub open spec fn told_by(
    percent: Seq<Option<Seq<Option<Seq<char>>>>>,
    step: Seq<Option<Seq<Option<Seq<char>>>>>,
    n: int,
) -> int
    decreases n,
{
    if n <= 0 || n > percent.len() {
        0
    } else {
        match percent[n - 1] {
            Some(groups) => percent_progress(groups),
            None => match step_at(step, n - 1) {
                Some(groups) => step_progress(groups),
                None => told_by(percent, step, n - 1),
            },
        }
    }
}

impl RegexParser {
    /// The progress told by the last of the lines that holds a
    /// percentage or a count of steps.
    pub open spec fn told_progress(&self, lines: Seq<Seq<char>>) -> int {
        told_by(groups_of(lines, self.percent), groups_of(lines, self.step), lines.len() as int)
    }

    /// The metrics that the parser reads off `text`: the progress and
    /// nothing else.
    pub open spec fn generic_metrics(&self, text: Seq<char>) -> MetricsView {
        MetricsView { progress: self.told_progress(lines_of(text)), ..blank_view() }
    }
}

/// The progress told by the last line that holds a percentage or a count
/// of steps, `percent` and `step` being what was found of each in each
/// line.
pub fn progress_told(percent: &Vec<Option<Vec<Option<String>>>>, step: &Vec<Option<Vec<Option<String>>>>) -> (p:
    u32)
    ensures
        p == told_by(found_view(percent@), found_view(step@), percent@.len() as int),
{
    let ghost seen = found_view(percent@);
    let ghost steps = found_view(step@);
    let mut i: usize = percent.len();
    while i > 0
        invariant
            seen == found_view(percent@),
            steps == found_view(step@),
            i <= percent.len(),
            told_by(seen, steps, percent@.len() as int) == told_by(seen, steps, i as int),
        decreases i,
    {
        assert(seen[i - 1] == groups_view(percent@[i - 1]));
        match &percent[i - 1] {
            Some(groups) => {
                return progress_of_percent(groups);
            },
            None => {},
        }
        if i - 1 < step.len() {
            assert(steps[i - 1] == groups_view(step@[i - 1]));
            match &step[i - 1] {
                Some(groups) => {
                    return progress_of_step(groups);
                },
                None => {},
            }
        }
        i -= 1;
    }
    0
}

/// The progress told by a percentage.
pub fn progress_of_percent(groups: &Vec<Option<String>>) -> (p: u32)
    ensures
        p == percent_progress(groups_view(Some(*groups))->0),
{
    match group(groups, 1) {
        Some(text) => match parse_decimal(text.as_str()) {
            Some(percent) => {
                if percent < 0 {
                    0
                } else if percent / 100 > FULL as i64 {
                    FULL
                } else {
                    (percent / 100) as u32
                }
            },
            None => 0,
        },
        None => 0,
    }
}

/// The progress told by a count of steps.
pub fn progress_of_step(groups: &Vec<Option<String>>) -> (p: u32)
    ensures
        p == step_progress(groups_view(Some(*groups))->0),
{
    let current = match group(groups, 1) {
        Some(text) => match parse_whole(text.as_str()) {
            Some(v) => v,
            None => 0,
        },
        None => 0,
    };
    let total = match group(groups, 2) {
        Some(text) => match parse_whole(text.as_str()) {
            Some(v) => v,
            None => 1,
        },
        None => 1,
    };
    ratio(current, total)
}

/// The parser of last resort.
pub struct RegexParser {
    pub percent: Pattern,
    pub step: Pattern,
}

/// Whether the `regex` crate accepts every pattern of the parser.
pub open spec fn patterns_valid() -> bool {
    pattern_valid(PERCENT@) && pattern_valid(STEP@)
}

impl RegexParser {
    /// Each pattern is the one it is meant to be.
    pub open spec fn wf(&self) -> bool {
        &&& self.percent.source() == PERCENT@
        &&& self.step.source() == STEP@
    }

    /// The parser, unless the `regex` crate refuses one of its patterns.
    pub fn default_parser() -> (r: Option<Self>)
        ensures
            r is Some <==> patterns_valid(),
            r matches Some(p) ==> p.wf(),
    {
        let percent = match Pattern::new(PERCENT) {
            Some(p) => p,
            None => {
                return None;
            },
        };
        let step = match Pattern::new(STEP) {
            Some(p) => p,
            None => {
                return None;
            },
        };
        Some(RegexParser { percent, step })
    }

    /// The name of the parser.
    pub fn name(&self) -> (s: &'static str)
        ensures
            s@ == "regex"@,
    {
        "regex"
    }

    /// The task types whose output the parser is meant for.
    pub fn supported_types(&self) -> (types: Vec<&'static str>)
        ensures
            types@.len() == 1,
            types@[0]@ == "generic"@,
    {
        let mut types: Vec<&'static str> = Vec::new();
        types.push("generic");
        types
    }

    /// Whether `text` holds a percentage or a count of steps.
    pub open spec fn sniffs(&self, text: Seq<char>) -> bool {
        self.percent.matches(text) || self.step.matches(text)
    }

    /// Whether `text` holds a percentage or a count of steps.
    pub fn can_parse(&self, text: &str) -> (b: bool)
        ensures
            b == self.sniffs(text@),
    {
        self.percent.is_match(text) || self.step.is_match(text)
    }

    /// The metrics read off `text`.
    pub fn parse(&self, text: &str) -> (m: TaskMetrics)
        ensures
            m.wf(),
            metrics_view(&m) == self.generic_metrics(text@),
    {
        let lines = split_lines(text);
        let percent = line_captures(&self.percent, &lines);
        let step = line_captures(&self.step, &lines);
        let mut m = TaskMetrics::empty();
        assert(metrics_view(&m) =~= blank_view()) by {
            assert(m.errors.deep_view() =~= Seq::<Seq<char>>::empty());
            assert(crate::metrics::value_views(&m.metrics) =~= Seq::empty());
            assert(m.metrics.keys() =~= Seq::<Seq<char>>::empty());
        }
        m.progress = progress_told(&percent, &step);
        m
    }
}

} // verus!
