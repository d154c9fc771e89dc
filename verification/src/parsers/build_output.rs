//! The parser for the output of build tools: cargo, npm, make and the
//! like.

use crate::metrics::collect_metrics;
use crate::metrics::entry_keys;
use crate::metrics::entry_values;
use crate::metrics::MetricValue;
use crate::metrics::TaskMetrics;
use crate::metrics::ValueView;
use crate::parsers::count_lines;
use crate::parsers::count_matching;
use crate::parsers::last_captures;
use crate::parsers::last_groups;
use crate::parsers::lines_matching;
use crate::parsers::matching_lines;
use crate::parsers::metrics_view;
use crate::parsers::ratio;
use crate::parsers::share;
use crate::parsers::MetricsView;
use crate::parsers::FULL;
use crate::pattern::group;
use crate::pattern::group_text;
use crate::pattern::groups_view;
use crate::pattern::pattern_valid;
use crate::pattern::Pattern;
use crate::text::contains_text;
use crate::text::decimal_value;
use crate::text::lines_of;
use crate::text::owned;
use crate::text::parse_decimal;
use crate::text::parse_whole;
use crate::text::split_lines;
use crate::text::str_contains;
use crate::text::whole_value;
use vstd::prelude::*;

verus! {

/// A line that says which crate is compiled.
pub const COMPILING: &'static str = "Compiling\\s+(\\S+)\\s+v";

/// A line that warns.
pub const WARNING: &'static str = "warning(?:\\[[\\w]+\\])?:";

/// A line that reports an error.
pub const ERROR: &'static str = "(?i)^error(?:\\[[\\w]+\\])?:";

/// The line that ends a build, with the profile and the seconds it took.
pub const FINISHED: &'static str = "Finished\\s+`?(\\w+)`?\\s+.*in\\s+([\\d.]+)s";

/// The line that sums up the tests, with the passed and the failed ones.
pub const TEST_RESULT: &'static str = "test result:.*?(\\d+) passed.*?(\\d+) failed";

/// A line in which npm warns.
pub const NPM_WARN: &'static str = "npm warn";

/// A line in which npm reports an error.
pub const NPM_ERR: &'static str = "npm ERR!";

/// A line that counts steps, with the current one and their number.
pub const STEP: &'static str = "\\[(\\d+)/(\\d+)\\]";

/// What the patterns found in the output of a build.
#[derive(Debug)]
pub struct BuildReadings {
    /// How many lines warn.
    pub warnings: i64,
    /// How many lines report an error.
    pub errors: i64,
    /// How many lines say that a crate is compiled.
    pub crates: i64,
    /// Whether a line ends the build.
    pub finished: bool,
    /// The seconds the build took, in millionths, where the last line that
    /// ends the build tells them.
    pub build_time: Option<i64>,
    /// The profile of the build, where that line names it.
    pub profile: Option<String>,
    /// The tests passed and failed, by the last line that sums them up.
    pub tests: Option<(i64, i64)>,
    /// The current step and the number of steps, by the last line that
    /// counts steps.
    pub step: Option<(i64, i64)>,
    /// The lines that report an error.
    pub error_lines: Vec<String>,
    /// Whether the output speaks of compiling.
    pub compiling: bool,
    /// Whether the output speaks of linking.
    pub linking: bool,
    /// Whether the output sums up tests.
    pub testing: bool,
}

/// Readings with their texts as sequences of characters.
pub ghost struct ReadingsView {
    pub warnings: int,
    pub errors: int,
    pub crates: int,
    pub finished: bool,
    pub build_time: Option<int>,
    pub profile: Option<Seq<char>>,
    pub tests: Option<(int, int)>,
    pub step: Option<(int, int)>,
    pub error_lines: Seq<Seq<char>>,
    pub compiling: bool,
    pub linking: bool,
    pub testing: bool,
}

impl View for BuildReadings {
    type V = ReadingsView;

    open spec fn view(&self) -> ReadingsView {
        ReadingsView {
            warnings: self.warnings as int,
            errors: self.errors as int,
            crates: self.crates as int,
            finished: self.finished,
            build_time: match self.build_time {
                Some(t) => Some(t as int),
                None => None,
            },
            profile: match self.profile {
                Some(p) => Some(p@),
                None => None,
            },
            tests: match self.tests {
                Some((p, f)) => Some((p as int, f as int)),
                None => None,
            },
            step: match self.step {
                Some((c, t)) => Some((c as int, t as int)),
                None => None,
            },
            error_lines: self.error_lines.deep_view(),
            compiling: self.compiling,
            linking: self.linking,
            testing: self.testing,
        }
    }
}

/// The whole number that the group `i` writes; `fallback` where the group
/// is missing or writes none.
pub open spec fn group_whole(groups: Seq<Option<Seq<char>>>, i: int, fallback: int) -> int {
    match group_text(groups, i) {
        Some(text) => match whole_value(text) {
            Some(v) => v,
            None => fallback,
        },
        None => fallback,
    }
}

/// The count `n` as a metric: kept at the largest `i64` where it is more.
pub open spec fn as_count(n: nat) -> int {
    if n > i64::MAX {
        i64::MAX as int
    } else {
        n as int
    }
}

impl BuildParser {
    /// What the patterns find in the lines of `text`.
    pub open spec fn readings_of(&self, text: Seq<char>) -> ReadingsView {
    let lines = lines_of(text);
    let finished = last_groups(lines, self.finished);
    let tests = last_groups(lines, self.test_result);
    let step = last_groups(lines, self.step);
    ReadingsView {
        warnings: as_count(count_matching(lines, self.warning) + count_matching(lines, self.npm_warn)),
        errors: as_count(count_matching(lines, self.error) + count_matching(lines, self.npm_err)),
        crates: as_count(count_matching(lines, self.compiling)),
        finished: finished is Some,
        build_time: match finished {
            Some(groups) => match group_text(groups, 2) {
                Some(t) => decimal_value(t),
                None => None,
            },
            None => None,
        },
        profile: match finished {
            Some(groups) => group_text(groups, 1),
            None => None,
        },
        tests: match tests {
            Some(groups) => Some((group_whole(groups, 1, 0), group_whole(groups, 2, 0))),
            None => None,
        },
        step: match step {
            Some(groups) => Some((group_whole(groups, 1, 0), group_whole(groups, 2, 1))),
            None => None,
        },
        error_lines: lines_matching(lines, self.error, self.npm_err),
        compiling: contains_text(text, "Compiling"@),
        linking: contains_text(text, "Linking"@),
        testing: contains_text(text, "test result:"@),
    }
}
}

/// The entry of a count: there is one where the count is not nought.
pub open spec fn count_entry(name: Seq<char>, n: int) -> Seq<(Seq<char>, ValueView)> {
    if n > 0 {
        seq![(name, ValueView::Int(n))]
    } else {
        Seq::empty()
    }
}

/// The entries of the line that ends the build: the time and the
/// profile, each where it is known.
pub open spec fn finish_entries(r: ReadingsView) -> Seq<(Seq<char>, ValueView)> {
    (match r.build_time {
        Some(t) => seq![("build_time_secs"@, ValueView::Decimal(t))],
        None => Seq::empty(),
    }) + (match r.profile {
        Some(p) => seq![("profile"@, ValueView::String(p))],
        None => Seq::empty(),
    })
}

/// The entries of the line that sums up the tests.
pub open spec fn test_entries(r: ReadingsView) -> Seq<(Seq<char>, ValueView)> {
    match r.tests {
        Some((passed, failed)) => seq![
            ("tests_passed"@, ValueView::Int(passed)),
            ("tests_failed"@, ValueView::Int(failed)),
        ],
        None => Seq::empty(),
    }
}

/// The metrics that the readings give rise to, in the order in which
/// they are stored: the counts that are not nought, the time and the
/// profile of the build, the tests passed and failed.
pub open spec fn metric_entries(r: ReadingsView) -> Seq<(Seq<char>, ValueView)> {
    count_entry("warnings"@, r.warnings) + count_entry("errors"@, r.errors) + count_entry(
        "crates_compiled"@,
        r.crates,
    ) + finish_entries(r) + test_entries(r)
}

/// The metrics of a build by its readings. The progress is full once a
/// line ends the build, else the share of the steps done. The phase is
/// the latest that shows: finished, testing, linking, compiling.
pub open spec fn assembled(r: ReadingsView) -> MetricsView {
    let entries = metric_entries(r);
    MetricsView {
        progress: if r.finished {
            FULL as int
        } else {
            match r.step {
                Some((current, total)) => share(current, total),
                None => 0,
            }
        },
        keys: entry_keys(entries, entries.len() as int),
        values: entry_values(entries, entries.len() as int),
        phase: if r.finished {
            Some("Finished"@)
        } else if r.testing {
            Some("Testing"@)
        } else if r.linking {
            Some("Linking"@)
        } else if r.compiling {
            Some("Compiling"@)
        } else {
            None
        },
        errors: r.error_lines,
    }
}

fn push_count(entries: &mut Vec<(String, MetricValue)>, name: &str, n: i64)
    ensures
        crate::metrics::entries_view(final(entries)@) == crate::metrics::entries_view(old(entries)@)
            + count_entry(name@, n as int),
{
    if n > 0 {
        entries.push((owned(name), MetricValue::Int(n)));
    }
    assert(crate::metrics::entries_view(entries@) =~= crate::metrics::entries_view(old(entries)@) + count_entry(
        name@,
        n as int,
    ));
}

fn push_finish(entries: &mut Vec<(String, MetricValue)>, build_time: Option<i64>, profile: Option<String>)
    ensures
        crate::metrics::entries_view(final(entries)@) == crate::metrics::entries_view(old(entries)@) + (
        match build_time {
            Some(t) => seq![("build_time_secs"@, ValueView::Decimal(t as int))],
            None => Seq::empty(),
        }) + (match profile {
            Some(p) => seq![("profile"@, ValueView::String(p@))],
            None => Seq::empty(),
        }),
{
    match build_time {
        Some(t) => {
            entries.push((owned("build_time_secs"), MetricValue::Decimal(t)));
        },
        None => {},
    }
    match profile {
        Some(p) => {
            entries.push((owned("profile"), MetricValue::String(p)));
        },
        None => {},
    }
    assert(crate::metrics::entries_view(entries@) =~= crate::metrics::entries_view(old(entries)@) + (
    match build_time {
        Some(t) => seq![("build_time_secs"@, ValueView::Decimal(t as int))],
        None => Seq::empty(),
    }) + (match profile {
        Some(p) => seq![("profile"@, ValueView::String(p@))],
        None => Seq::empty(),
    }));
}

fn push_tests(entries: &mut Vec<(String, MetricValue)>, tests: Option<(i64, i64)>)
    ensures
        crate::metrics::entries_view(final(entries)@) == crate::metrics::entries_view(old(entries)@) + (
        match tests {
            Some((passed, failed)) => seq![
                ("tests_passed"@, ValueView::Int(passed as int)),
                ("tests_failed"@, ValueView::Int(failed as int)),
            ],
            None => Seq::empty(),
        }),
{
    match tests {
        Some((passed, failed)) => {
            entries.push((owned("tests_passed"), MetricValue::Int(passed)));
            entries.push((owned("tests_failed"), MetricValue::Int(failed)));
        },
        None => {},
    }
    assert(crate::metrics::entries_view(entries@) =~= crate::metrics::entries_view(old(entries)@) + (
    match tests {
        Some((passed, failed)) => seq![
            ("tests_passed"@, ValueView::Int(passed as int)),
            ("tests_failed"@, ValueView::Int(failed as int)),
        ],
        None => Seq::empty(),
    }));
}

/// The metrics of a build by its readings.
pub fn build_metrics(readings: BuildReadings) -> (m: TaskMetrics)
    ensures
        m.wf(),
        metrics_view(&m) == assembled(readings@),
{
    let ghost r = readings@;
    let mut entries: Vec<(String, MetricValue)> = Vec::new();
    assert(crate::metrics::entries_view(entries@) =~= Seq::empty());
    push_count(&mut entries, "warnings", readings.warnings);
    push_count(&mut entries, "errors", readings.errors);
    push_count(&mut entries, "crates_compiled", readings.crates);
    let done = readings.finished;
    push_finish(&mut entries, readings.build_time, readings.profile);
    push_tests(&mut entries, readings.tests);
    assert(crate::metrics::entries_view(entries@) =~= metric_entries(r));
    let progress: u32 = if done {
        FULL
    } else {
        match readings.step {
            Some((current, total)) => ratio(current, total),
            None => 0,
        }
    };
    let phase: Option<String> = if done {
        Some(owned("Finished"))
    } else if readings.testing {
        Some(owned("Testing"))
    } else if readings.linking {
        Some(owned("Linking"))
    } else if readings.compiling {
        Some(owned("Compiling"))
    } else {
        None
    };
    let metrics = collect_metrics(entries);
    TaskMetrics { progress, metrics, phase, errors: readings.error_lines }
}

fn count_sum(a: usize, b: usize) -> (n: i64)
    ensures
        n == as_count((a + b) as nat),
{
    let wide: u128 = a as u128 + b as u128;
    if wide > i64::MAX as u128 {
        i64::MAX
    } else {
        wide as i64
    }
}

fn whole_or(groups: &Vec<Option<String>>, i: usize, fallback: i64) -> (v: i64)
    ensures
        v == group_whole(groups_view(Some(*groups))->0, i as int, fallback as int),
{
    match group(groups, i) {
        Some(text) => match parse_whole(text.as_str()) {
            Some(v) => v,
            None => fallback,
        },
        None => fallback,
    }
}

/// The parser for the output of build tools.
pub struct BuildParser {
    pub compiling: Pattern,
    pub warning: Pattern,
    pub error: Pattern,
    pub finished: Pattern,
    pub test_result: Pattern,
    pub npm_warn: Pattern,
    pub npm_err: Pattern,
    pub step: Pattern,
}

/// Whether the `regex` crate accepts every pattern of the parser.
pub open spec fn patterns_valid() -> bool {
    &&& pattern_valid(COMPILING@)
    &&& pattern_valid(WARNING@)
    &&& pattern_valid(ERROR@)
    &&& pattern_valid(FINISHED@)
    &&& pattern_valid(TEST_RESULT@)
    &&& pattern_valid(NPM_WARN@)
    &&& pattern_valid(NPM_ERR@)
    &&& pattern_valid(STEP@)
}

impl BuildParser {
    /// Each pattern is the one it is meant to be.
    pub open spec fn wf(&self) -> bool {
        &&& self.compiling.source() == COMPILING@
        &&& self.warning.source() == WARNING@
        &&& self.error.source() == ERROR@
        &&& self.finished.source() == FINISHED@
        &&& self.test_result.source() == TEST_RESULT@
        &&& self.npm_warn.source() == NPM_WARN@
        &&& self.npm_err.source() == NPM_ERR@
        &&& self.step.source() == STEP@
    }

    /// The parser, unless the `regex` crate refuses one of its patterns.
    pub fn new() -> (r: Option<Self>)
        ensures
            r is Some <==> patterns_valid(),
            r matches Some(p) ==> p.wf(),
    {
        let compiling = match Pattern::new(COMPILING) {
            Some(p) => p,
            None => {
                return None;
            },
        };
        let warning = match Pattern::new(WARNING) {
            Some(p) => p,
            None => {
                return None;
            },
        };
        let error = match Pattern::new(ERROR) {
            Some(p) => p,
            None => {
                return None;
            },
        };
        let finished = match Pattern::new(FINISHED) {
            Some(p) => p,
            None => {
                return None;
            },
        };
        let test_result = match Pattern::new(TEST_RESULT) {
            Some(p) => p,
            None => {
                return None;
            },
        };
        let npm_warn = match Pattern::new(NPM_WARN) {
            Some(p) => p,
            None => {
                return None;
            },
        };
        let npm_err = match Pattern::new(NPM_ERR) {
            Some(p) => p,
            None => {
                return None;
            },
        };
        let step = match Pattern::new(STEP) {
            Some(p) => p,
            None => {
                return None;
            },
        };
        Some(BuildParser { compiling, warning, error, finished, test_result, npm_warn, npm_err, step })
    }

    /// The name of the parser.
    pub fn name(&self) -> (s: &'static str)
        ensures
            s@ == "build"@,
    {
        "build"
    }

    /// The task types whose output the parser is meant for.
    pub fn supported_types(&self) -> (types: Vec<&'static str>)
        ensures
            types@.len() == 5,
            types@[0]@ == "build"@,
            types@[1]@ == "compile"@,
            types@[2]@ == "Build"@,
            types@[3]@ == "BugFix"@,
            types@[4]@ == "Refactor"@,
    {
        let mut types: Vec<&'static str> = Vec::new();
        types.push("build");
        types.push("compile");
        types.push("Build");
        types.push("BugFix");
        types.push("Refactor");
        types
    }

    /// Whether `text` looks like the output of a build: it names a crate
    /// that is compiled, ends a build, has an error of npm, or counts
    /// steps.
    pub open spec fn sniffs(&self, text: Seq<char>) -> bool {
        self.compiling.matches(text) || self.finished.matches(text) || self.npm_err.matches(text)
            || self.step.matches(text)
    }

    /// Whether `text` looks like the output of a build.
    pub fn can_parse(&self, text: &str) -> (b: bool)
        ensures
            b == self.sniffs(text@),
    {
        self.compiling.is_match(text) || self.finished.is_match(text) || self.npm_err.is_match(text)
            || self.step.is_match(text)
    }

    /// What the patterns find in `text`.
    pub fn read(&self, text: &str) -> (readings: BuildReadings)
        ensures
            readings@ == self.readings_of(text@),
    {
        let lines = split_lines(text);
        let warnings = count_lines(&self.warning, &lines);
        let npm_warnings = count_lines(&self.npm_warn, &lines);
        let errors = count_lines(&self.error, &lines);
        let npm_errors = count_lines(&self.npm_err, &lines);
        let crates = count_lines(&self.compiling, &lines);
        let finished = last_captures(&self.finished, &lines);
        let (build_time, profile) = match &finished {
            Some(groups) => {
                let time = match group(groups, 2) {
                    Some(t) => parse_decimal(t.as_str()),
                    None => None,
                };
                let profile = match group(groups, 1) {
                    Some(p) => Some(p.clone()),
                    None => None,
                };
                (time, profile)
            },
            None => (None, None),
        };
        let tests = match last_captures(&self.test_result, &lines) {
            Some(groups) => Some((whole_or(&groups, 1, 0), whole_or(&groups, 2, 0))),
            None => None,
        };
        let step = match last_captures(&self.step, &lines) {
            Some(groups) => Some((whole_or(&groups, 1, 0), whole_or(&groups, 2, 1))),
            None => None,
        };
        let error_lines = matching_lines(&self.error, &self.npm_err, &lines);
        BuildReadings {
            warnings: count_sum(warnings, npm_warnings),
            errors: count_sum(errors, npm_errors),
            crates: count_sum(crates, 0),
            finished: finished.is_some(),
            build_time,
            profile,
            tests,
            step,
            error_lines,
            compiling: str_contains(text, "Compiling"),
            linking: str_contains(text, "Linking"),
            testing: str_contains(text, "test result:"),
        }
    }

    /// The metrics of the build whose output is `text`.
    pub fn parse(&self, text: &str) -> (m: TaskMetrics)
        ensures
            m.wf(),
            metrics_view(&m) == assembled(self.readings_of(text@)),
    {
        build_metrics(self.read(text))
    }
}

} // verus!
