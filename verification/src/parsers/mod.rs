//! Parsers that read progress and metrics off the output of a task, and
//! what they share: going through the lines with a pattern.

pub mod build_output;
pub mod generic;
pub mod ml_training;

use crate::metrics::value_views;
use crate::metrics::TaskMetrics;
use crate::metrics::ValueView;
use crate::pattern::groups_view;
use crate::pattern::Pattern;
use vstd::prelude::*;

verus! {

/// The number that stands for a progress of 1.0.
pub const FULL: u32 = 1_000_000;

/// What a parser read, with its texts as sequences of characters.
pub ghost struct MetricsView {
    pub progress: int,
    pub keys: Seq<Seq<char>>,
    pub values: Seq<ValueView>,
    pub phase: Option<Seq<char>>,
    pub errors: Seq<Seq<char>>,
}

/// What the metrics hold, with their texts as sequences of characters.
pub open spec fn metrics_view(m: &TaskMetrics) -> MetricsView {
    MetricsView {
        progress: m.progress as int,
        keys: m.metrics.keys(),
        values: value_views(&m.metrics),
        phase: match m.phase {
            Some(p) => Some(p@),
            None => None,
        },
        errors: m.errors.deep_view(),
    }
}

/// Metrics that say nothing.
pub open spec fn blank_view() -> MetricsView {
    MetricsView { progress: 0, keys: Seq::empty(), values: Seq::empty(), phase: None, errors: Seq::empty() }
}

/// How many of the flags are true.
pub open spec fn count_true(flags: Seq<bool>) -> nat
    decreases flags.len(),
{
    if flags.len() == 0 {
        0
    } else if flags.last() {
        count_true(flags.drop_last()) + 1
    } else {
        count_true(flags.drop_last())
    }
}

/// For each of the lines, whether the pattern matches it.
pub open spec fn flags_of(lines: Seq<Seq<char>>, pattern: Pattern) -> Seq<bool> {
    Seq::new(lines.len(), |i: int| pattern.matches(lines[i]))
}

/// How many of the lines the pattern matches.
pub open spec fn count_matching(lines: Seq<Seq<char>>, pattern: Pattern) -> nat {
    count_true(flags_of(lines, pattern))
}

/// The last of the values that is there.
pub open spec fn last_some<T>(found: Seq<Option<T>>) -> Option<T>
    decreases found.len(),
{
    if found.len() == 0 {
        None
    } else {
        match found.last() {
            Some(value) => Some(value),
            None => last_some(found.drop_last()),
        }
    }
}

/// For each of the lines, the groups of the match of the pattern in it,
/// if there is a match.
pub open spec fn groups_of(lines: Seq<Seq<char>>, pattern: Pattern) -> Seq<Option<Seq<Option<Seq<char>>>>> {
    Seq::new(lines.len(), |i: int| pattern.groups(lines[i]))
}

/// The groups of the match of the pattern in the last of the lines that
/// it matches.
pub open spec fn last_groups(lines: Seq<Seq<char>>, pattern: Pattern) -> Option<Seq<Option<Seq<char>>>> {
    last_some(groups_of(lines, pattern))
}

/// Whether the flag at index `i` is there and true.
pub open spec fn flag_at(flags: Seq<bool>, i: int) -> bool {
    0 <= i < flags.len() && flags[i]
}

/// Those of the first `n` lines for which one of the two flags is true,
/// in order.
pub open spec fn flagged(lines: Seq<Seq<char>>, first: Seq<bool>, second: Seq<bool>, n: int) -> Seq<
    Seq<char>,
>
    decreases n,
{
    if n <= 0 {
        Seq::empty()
    } else if flag_at(first, n - 1) || flag_at(second, n - 1) {
        flagged(lines, first, second, n - 1).push(lines[n - 1])
    } else {
        flagged(lines, first, second, n - 1)
    }
}

/// The lines that one of the two patterns matches, in order.
pub open spec fn lines_matching(lines: Seq<Seq<char>>, first: Pattern, second: Pattern) -> Seq<
    Seq<char>,
> {
    flagged(lines, flags_of(lines, first), flags_of(lines, second), lines.len() as int)
}

/// What was found in each line, with the texts as sequences of
/// characters.
pub open spec fn found_view(found: Seq<Option<Vec<Option<String>>>>) -> Seq<
    Option<Seq<Option<Seq<char>>>>,
> {
    Seq::new(found.len(), |i: int| groups_view(found[i]))
}

/// The share `current / total` as a progress, at most 1.0; nought where
/// `total` is not positive.
pub open spec fn share(current: int, total: int) -> int {
    if total > 0 && current >= 0 {
        if current * FULL / total > FULL {
            FULL as int
        } else {
            current * FULL / total
        }
    } else {
        0
    }
}

/// The share `current / total` as a progress.
pub fn ratio(current: i64, total: i64) -> (p: u32)
    ensures
        p == share(current as int, total as int),
{
    if total <= 0 || current < 0 {
        return 0;
    }
    let wide: u128 = current as u128 * 1_000_000;
    let q: u128 = wide / total as u128;
    if q > 1_000_000 {
        FULL
    } else {
        q as u32
    }
}

/// For each of the lines, whether the pattern matches it.
pub fn match_flags(pattern: &Pattern, lines: &Vec<String>) -> (flags: Vec<bool>)
    ensures
        flags@ == flags_of(lines.deep_view(), *pattern),
{
    let mut flags: Vec<bool> = Vec::new();
    let mut i: usize = 0;
    while i < lines.len()
        invariant
            i <= lines.len(),
            flags@.len() == i,
            forall|j: int| 0 <= j < i ==> #[trigger] flags@[j] == pattern.matches(lines@[j]@),
        decreases lines.len() - i,
    {
        flags.push(pattern.is_match(lines[i].as_str()));
        i += 1;
    }
    assert(flags@ =~= flags_of(lines.deep_view(), *pattern));
    flags
}

/// How many of the flags are true.
pub fn count_flags(flags: &Vec<bool>) -> (n: usize)
    ensures
        n == count_true(flags@),
{
    let mut n: usize = 0;
    let mut i: usize = 0;
    assert(flags@.take(0) =~= Seq::empty());
    while i < flags.len()
        invariant
            i <= flags.len(),
            n <= i,
            n == count_true(flags@.take(i as int)),
        decreases flags.len() - i,
    {
        assert(flags@.take(i + 1).drop_last() =~= flags@.take(i as int));
        if flags[i] {
            n += 1;
        }
        i += 1;
    }
    assert(flags@.take(flags.len() as int) =~= flags@);
    n
}

/// How many of the lines the pattern matches.
pub fn count_lines(pattern: &Pattern, lines: &Vec<String>) -> (n: usize)
    ensures
        n == count_matching(lines.deep_view(), *pattern),
{
    count_flags(&match_flags(pattern, lines))
}

/// For each of the lines, the groups of the match of the pattern in it,
/// if there is a match.
pub fn line_captures(pattern: &Pattern, lines: &Vec<String>) -> (found: Vec<Option<Vec<Option<String>>>>)
    ensures
        found_view(found@) == groups_of(lines.deep_view(), *pattern),
{
    let mut found: Vec<Option<Vec<Option<String>>>> = Vec::new();
    let mut i: usize = 0;
    while i < lines.len()
        invariant
            i <= lines.len(),
            found@.len() == i,
            forall|j: int| 0 <= j < i ==> groups_view(#[trigger] found@[j]) == pattern.groups(lines@[j]@),
        decreases lines.len() - i,
    {
        found.push(pattern.captures(lines[i].as_str()));
        i += 1;
    }
    assert(found_view(found@) =~= groups_of(lines.deep_view(), *pattern));
    found
}

/// The last of the matches that is there.
pub fn last_found(found: Vec<Option<Vec<Option<String>>>>) -> (r: Option<Vec<Option<String>>>)
    ensures
        groups_view(r) == last_some(found_view(found@)),
{
    let ghost all = found_view(found@);
    let mut rest = found;
    assert(found_view(rest@) =~= all.take(rest@.len() as int));
    while rest.len() > 0
        invariant
            all == found_view(found@),
            rest@.len() <= all.len(),
            found_view(rest@) == all.take(rest@.len() as int),
            last_some(all) == last_some(all.take(rest@.len() as int)),
        decreases rest@.len(),
    {
        let ghost n = rest@.len() as int;
        let last = rest.pop().unwrap();
        proof {
            assert(all.take(n).last() == groups_view(last));
            assert(all.take(n).drop_last() =~= all.take(n - 1));
            assert(found_view(rest@) =~= all.take(n - 1));
        }
        if last.is_some() {
            assert(last_some(all.take(n)) == groups_view(last));
            return last;
        }
    }
    assert(all.take(0) =~= Seq::empty());
    None
}

/// The groups of the match of the pattern in the last of the lines that
/// it matches.
pub fn last_captures(pattern: &Pattern, lines: &Vec<String>) -> (r: Option<Vec<Option<String>>>)
    ensures
        groups_view(r) == last_groups(lines.deep_view(), *pattern),
{
    last_found(line_captures(pattern, lines))
}

/// Those of the lines for which one of the two flags is true, in order.
/// A flag that is missing counts as false.
pub fn flagged_lines(lines: &Vec<String>, first: &Vec<bool>, second: &Vec<bool>) -> (kept: Vec<String>)
    ensures
        kept.deep_view() == flagged(lines.deep_view(), first@, second@, lines@.len() as int),
{
    let ghost all = lines.deep_view();
    let mut kept: Vec<String> = Vec::new();
    let mut i: usize = 0;
    assert(kept.deep_view() =~= flagged(all, first@, second@, 0));
    while i < lines.len()
        invariant
            all == lines.deep_view(),
            i <= lines.len(),
            kept.deep_view() == flagged(all, first@, second@, i as int),
        decreases lines.len() - i,
    {
        let one = i < first.len() && first[i];
        let other = i < second.len() && second[i];
        if one || other {
            let ghost before = kept.deep_view();
            kept.push(lines[i].clone());
            assert(kept.deep_view() =~= before.push(all[i as int]));
        }
        i += 1;
    }
    kept
}

/// The lines that one of the two patterns matches, in order.
pub fn matching_lines(first: &Pattern, second: &Pattern, lines: &Vec<String>) -> (found: Vec<String>)
    ensures
        found.deep_view() == lines_matching(lines.deep_view(), *first, *second),
{
    flagged_lines(lines, &match_flags(first, lines), &match_flags(second, lines))
}

} // verus!
