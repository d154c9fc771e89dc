//! The registry of parsers: it picks the parser for the output of a task
//! by the type of the task or, failing that, by the look of the output.

use crate::metrics::value_views;
use crate::metrics::TaskMetrics;
use crate::parsers::blank_view;
use crate::parsers::build_output;
use crate::parsers::build_output::BuildParser;
use crate::parsers::generic;
use crate::parsers::generic::RegexParser;
use crate::parsers::metrics_view;
use crate::parsers::ml_training;
use crate::parsers::ml_training::MLTrainingParser;
use crate::parsers::MetricsView;
use crate::text::str_eq;
use vstd::prelude::*;

verus! {

/// What a parser gives back.
pub type ParsedMetrics = TaskMetrics;

/// A parser of the output of a task.
pub enum OutputParser {
    MlTraining(MLTrainingParser),
    Build(BuildParser),
    Regex(RegexParser),
}

impl OutputParser {
    /// Each pattern of the parser is the one it is meant to be.
    pub open spec fn wf(&self) -> bool {
        match self {
            OutputParser::MlTraining(p) => p.wf(),
            OutputParser::Build(p) => p.wf(),
            OutputParser::Regex(p) => p.wf(),
        }
    }

    /// The task types whose output the parser is meant for.
    pub open spec fn type_list(&self) -> Seq<Seq<char>> {
        match self {
            OutputParser::MlTraining(_) => seq!["ml_training"@, "ml-training"@, "training"@, "MLTraining"@],
            OutputParser::Build(_) => seq!["build"@, "compile"@, "Build"@, "BugFix"@, "Refactor"@],
            OutputParser::Regex(_) => seq!["generic"@],
        }
    }

    /// Whether `text` looks like output that the parser is meant for.
    pub open spec fn sniffs(&self, text: Seq<char>) -> bool {
        match self {
            OutputParser::MlTraining(p) => p.sniffs(text),
            OutputParser::Build(p) => p.sniffs(text),
            OutputParser::Regex(p) => p.sniffs(text),
        }
    }

    /// What the parser reads off `text`.
    pub open spec fn reading(&self, text: Seq<char>) -> MetricsView {
        match self {
            OutputParser::MlTraining(p) => ml_training::training_metrics(p.training_readings(text)),
            OutputParser::Build(p) => build_output::assembled(p.readings_of(text)),
            OutputParser::Regex(p) => p.generic_metrics(text),
        }
    }

    /// The name of the parser.
    pub fn name(&self) -> (s: &'static str)
        ensures
            s@ == match self {
                OutputParser::MlTraining(_) => "ml-training"@,
                OutputParser::Build(_) => "build"@,
                OutputParser::Regex(_) => "regex"@,
            },
    {
        match self {
            OutputParser::MlTraining(p) => p.name(),
            OutputParser::Build(p) => p.name(),
            OutputParser::Regex(p) => p.name(),
        }
    }

    /// The task types whose output the parser is meant for.
    pub fn supported_types(&self) -> (types: Vec<&'static str>)
        ensures
            Seq::new(types@.len(), |i: int| types@[i]@) == self.type_list(),
    {
        let types = match self {
            OutputParser::MlTraining(p) => p.supported_types(),
            OutputParser::Build(p) => p.supported_types(),
            OutputParser::Regex(p) => p.supported_types(),
        };
        assert(Seq::new(types@.len(), |i: int| types@[i]@) =~= self.type_list());
        types
    }

    /// Whether the parser is meant for tasks of the type `task_type`.
    pub fn supports(&self, task_type: &str) -> (b: bool)
        ensures
            b == self.type_list().contains(task_type@),
    {
        let types = self.supported_types();
        let ghost list = self.type_list();
        let mut i: usize = 0;
        while i < types.len()
            invariant
                i <= types@.len(),
                list == self.type_list(),
                list == Seq::new(types@.len(), |i: int| types@[i]@),
                forall|j: int| 0 <= j < i ==> list[j] != task_type@,
            decreases types@.len() - i,
        {
            if str_eq(types[i], task_type) {
                assert(list[i as int] == task_type@);
                return true;
            }
            i += 1;
        }
        false
    }

    /// Whether `text` looks like output that the parser is meant for.
    pub fn can_parse(&self, text: &str) -> (b: bool)
        ensures
            b == self.sniffs(text@),
    {
        match self {
            OutputParser::MlTraining(p) => p.can_parse(text),
            OutputParser::Build(p) => p.can_parse(text),
            OutputParser::Regex(p) => p.can_parse(text),
        }
    }

    /// What the parser reads off `text`.
    pub fn parse(&self, text: &str) -> (m: TaskMetrics)
        ensures
            m.wf(),
            metrics_view(&m) == self.reading(text@),
    {
        match self {
            OutputParser::MlTraining(p) => p.parse(text),
            OutputParser::Build(p) => p.parse(text),
            OutputParser::Regex(p) => p.parse(text),
        }
    }
}

/// The index of the first of the first `n` parsers that is meant for
/// tasks of the type `task_type`; `n` where there is none.
pub open spec fn first_for_type(parsers: Seq<OutputParser>, task_type: Seq<char>, n: int) -> int
    decreases n,
{
    if n <= 0 {
        0
    } else {
        let before = first_for_type(parsers, task_type, n - 1);
        if before < n - 1 {
            before
        } else if parsers[n - 1].type_list().contains(task_type) {
            n - 1
        } else {
            n
        }
    }
}

/// The index of the first of the first `n` parsers to which `text` looks
/// like its own; `n` where there is none.
pub open spec fn first_by_look(parsers: Seq<OutputParser>, text: Seq<char>, n: int) -> int
    decreases n,
{
    if n <= 0 {
        0
    } else {
        let before = first_by_look(parsers, text, n - 1);
        if before < n - 1 {
            before
        } else if parsers[n - 1].sniffs(text) {
            n - 1
        } else {
            n
        }
    }
}

/// The index of the parser that is picked for `text`: the first that is
/// meant for the type of the task, where a type is given and a parser is
/// meant for it; else the first to which the text looks like its own.
/// The number of parsers where none is picked.
pub open spec fn picked(parsers: Seq<OutputParser>, task_type: Option<Seq<char>>, text: Seq<char>) -> int {
    let n = parsers.len() as int;
    match task_type {
        Some(t) if first_for_type(parsers, t, n) < n => first_for_type(parsers, t, n),
        _ => first_by_look(parsers, text, n),
    }
}

/// What the parsers read off `text`: nothing off an empty text, else
/// what the picked parser reads, or nothing where none is picked.
pub open spec fn dispatched(parsers: Seq<OutputParser>, task_type: Option<Seq<char>>, text: Seq<char>) -> MetricsView {
    if text.len() == 0 {
        blank_view()
    } else if picked(parsers, task_type, text) < parsers.len() {
        parsers[picked(parsers, task_type, text)].reading(text)
    } else {
        blank_view()
    }
}

proof fn lemma_first_for_type_stays(parsers: Seq<OutputParser>, task_type: Seq<char>, k: int, n: int)
    requires
        0 <= k <= n,
        first_for_type(parsers, task_type, k) < k,
    ensures
        first_for_type(parsers, task_type, n) == first_for_type(parsers, task_type, k),
    decreases n - k,
{
    if k < n {
        lemma_first_for_type_stays(parsers, task_type, k, n - 1);
    }
}

proof fn lemma_first_by_look_stays(parsers: Seq<OutputParser>, text: Seq<char>, k: int, n: int)
    requires
        0 <= k <= n,
        first_by_look(parsers, text, k) < k,
    ensures
        first_by_look(parsers, text, n) == first_by_look(parsers, text, k),
    decreases n - k,
{
    if k < n {
        lemma_first_by_look_stays(parsers, text, k, n - 1);
    }
}

/// The registry of parsers.
pub struct ParserRegistry {
    parsers: Vec<OutputParser>,
}

impl ParserRegistry {
    /// The parsers, in the order in which they were registered.
    pub closed spec fn parsers(&self) -> Seq<OutputParser> {
        self.parsers@
    }

    /// Each pattern of each parser is the one it is meant to be.
    pub open spec fn wf(&self) -> bool {
        forall|i: int| 0 <= i < self.parsers().len() ==> (#[trigger] self.parsers()[i]).wf()
    }

    /// A registry without parsers.
    pub fn new() -> (r: Self)
        ensures
            r.wf(),
            r.parsers().len() == 0,
    {
        ParserRegistry { parsers: Vec::new() }
    }

    /// Puts `parser` behind the parsers that are registered.
    pub fn register(&mut self, parser: OutputParser)
        requires
            old(self).wf(),
            parser.wf(),
        ensures
            final(self).wf(),
            final(self).parsers() == old(self).parsers().push(parser),
    {
        self.parsers.push(parser);
        assert forall|i: int| 0 <= i < self.parsers().len() implies (#[trigger] self.parsers()[i]).wf() by {
            if i < old(self).parsers().len() {
                assert(self.parsers()[i] == old(self).parsers()[i]);
            }
        }
    }

    /// The registry with the parsers for training runs, for builds and of
    /// last resort, in that order; nothing where the `regex` crate refuses
    /// one of their patterns.
    pub fn with_defaults() -> (r: Option<Self>)
        ensures
            r is Some <==> (ml_training::patterns_valid() && build_output::patterns_valid()
                && generic::patterns_valid()),
            r matches Some(reg) ==> {
                &&& reg.wf()
                &&& reg.parsers().len() == 3
                &&& reg.parsers()[0] is MlTraining
                &&& reg.parsers()[1] is Build
                &&& reg.parsers()[2] is Regex
            },
    {
        let ml = match MLTrainingParser::new() {
            Some(p) => p,
            None => {
                return None;
            },
        };
        let build = match BuildParser::new() {
            Some(p) => p,
            None => {
                return None;
            },
        };
        let last = match RegexParser::default_parser() {
            Some(p) => p,
            None => {
                return None;
            },
        };
        let mut reg = ParserRegistry::new();
        reg.register(OutputParser::MlTraining(ml));
        reg.register(OutputParser::Build(build));
        reg.register(OutputParser::Regex(last));
        Some(reg)
    }

    /// The names of the parsers, in the order in which they were
    /// registered.
    pub fn names(&self) -> (names: Vec<&'static str>)
        ensures
            names@.len() == self.parsers().len(),
            forall|i: int|
                0 <= i < names@.len() ==> (#[trigger] names@[i])@ == match self.parsers()[i] {
                    OutputParser::MlTraining(_) => "ml-training"@,
                    OutputParser::Build(_) => "build"@,
                    OutputParser::Regex(_) => "regex"@,
                },
    {
        let mut names: Vec<&'static str> = Vec::new();
        let mut i: usize = 0;
        while i < self.parsers.len()
            invariant
                i <= self.parsers@.len(),
                names@.len() == i,
                forall|j: int|
                    0 <= j < i ==> (#[trigger] names@[j])@ == match self.parsers()[j] {
                        OutputParser::MlTraining(_) => "ml-training"@,
                        OutputParser::Build(_) => "build"@,
                        OutputParser::Regex(_) => "regex"@,
                    },
            decreases self.parsers@.len() - i,
        {
            names.push(self.parsers[i].name());
            i += 1;
        }
        names
    }

    /// What the parsers read off `text`, the output of a task of the type
    /// `task_type`. Nothing is read off an empty text.
    pub fn parse(&self, task_type: Option<&str>, text: &str) -> (m: TaskMetrics)
        ensures
            m.wf(),
            metrics_view(&m) == dispatched(
                self.parsers(),
                match task_type {
                    Some(t) => Some(t@),
                    None => None,
                },
                text@,
            ),
            text@.len() == 0 ==> metrics_view(&m) == blank_view() && m.is_blank(),
    {
        let ghost list = self.parsers();
        let n = self.parsers.len();
        if text.unicode_len() == 0 {
            let m = TaskMetrics::empty();
            assert(metrics_view(&m) =~= blank_view()) by {
                assert(m.errors.deep_view() =~= Seq::<Seq<char>>::empty());
                assert(value_views(&m.metrics) =~= Seq::empty());
                assert(m.metrics.keys() =~= Seq::<Seq<char>>::empty());
            }
            return m;
        }
        match task_type {
            Some(t) => {
                let mut i: usize = 0;
                while i < n
                    invariant
                        list == self.parsers(),
                        n == list.len(),
                        i <= n,
                        task_type == Some(t),
                        text@.len() > 0,
                        first_for_type(list, t@, i as int) == i,
                    decreases n - i,
                {
                    if self.parsers[i].supports(t) {
                        proof {
                            lemma_first_for_type_stays(list, t@, i + 1, n as int);
                        }
                        return self.parsers[i].parse(text);
                    }
                    i += 1;
                }
            },
            None => {},
        }
        let mut i: usize = 0;
        while i < n
            invariant
                list == self.parsers(),
                n == list.len(),
                i <= n,
                text@.len() > 0,
                task_type matches Some(t) ==> first_for_type(list, t@, n as int) == n,
                first_by_look(list, text@, i as int) == i,
            decreases n - i,
        {
            if self.parsers[i].can_parse(text) {
                proof {
                    lemma_first_by_look_stays(list, text@, i + 1, n as int);
                }
                return self.parsers[i].parse(text);
            }
            i += 1;
        }
        let m = TaskMetrics::empty();
        assert(metrics_view(&m) =~= blank_view()) by {
            assert(m.errors.deep_view() =~= Seq::<Seq<char>>::empty());
            assert(value_views(&m.metrics) =~= Seq::empty());
            assert(m.metrics.keys() =~= Seq::<Seq<char>>::empty());
        }
        m
    }
}

} // verus!
