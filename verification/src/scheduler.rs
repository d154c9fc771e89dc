//! The scheduler: a task graph, the set of tasks that are running, and the
//! rule that says which tasks may start next.

use crate::graph::Graph;
use crate::graph::GraphError;
use crate::graph::GraphTaskStatus;
use crate::text::str_eq;
use vstd::prelude::*;

verus! {

/// The scheduler.
pub struct Scheduler {
    graph: Graph,
    running: Vec<String>,
}

/// `s` without the value `x`, where `s` holds it at most once.
pub open spec fn without(s: Seq<Seq<char>>, x: Seq<char>) -> Seq<Seq<char>> {
    if s.contains(x) {
        s.remove(s.index_of(x))
    } else {
        s
    }
}

/// `s` with `x` at the end, unless `s` holds it already.
pub open spec fn with_member(s: Seq<Seq<char>>, x: Seq<char>) -> Seq<Seq<char>> {
    if s.contains(x) {
        s
    } else {
        s.push(x)
    }
}

/// Filtering twice keeps what passes both tests.
pub proof fn lemma_filter_twice<A>(s: Seq<A>, p: spec_fn(A) -> bool, q: spec_fn(A) -> bool)
    ensures
        s.filter(p).filter(q) == s.filter(|x: A| p(x) && q(x)),
    decreases s.len(),
{
    reveal(Seq::filter);
    let both = |x: A| p(x) && q(x);
    if s.len() > 0 {
        lemma_filter_twice(s.drop_last(), p, q);
        if p(s.last()) {
            s.drop_last().filter(p).lemma_filter_push(s.last(), q);
        }
        assert(s.filter(both) == if both(s.last()) {
            s.drop_last().filter(both).push(s.last())
        } else {
            s.drop_last().filter(both)
        });
    }
}

/// What passes a test among values that are all different is all
/// different.
pub proof fn lemma_filter_distinct<A>(s: Seq<A>, p: spec_fn(A) -> bool)
    requires
        s.no_duplicates(),
    ensures
        s.filter(p).no_duplicates(),
        forall|x: A| s.filter(p).contains(x) <==> s.contains(x) && p(x),
    decreases s.len(),
{
    reveal(Seq::filter);
    if s.len() > 0 {
        let head = s.drop_last();
        assert forall|i: int, j: int| 0 <= i < head.len() && 0 <= j < head.len() && i != j implies head[i]
            != head[j] by {
            assert(s[i] != s[j]);
        }
        lemma_filter_distinct(head, p);
        let kept = head.filter(p);
        assert forall|x: A| s.contains(x) <==> head.contains(x) || x == s.last() by {
            if s.contains(x) {
                let i = s.index_of(x);
                if i < head.len() {
                    assert(head[i] == x);
                }
            }
            if head.contains(x) {
                let i = head.index_of(x);
                assert(s[i] == x);
            }
            assert(s[s.len() - 1] == s.last());
        }
        if p(s.last()) {
            let all = kept.push(s.last());
            assert(!head.contains(s.last())) by {
                if head.contains(s.last()) {
                    let i = head.index_of(s.last());
                    assert(s[i] == s[s.len() - 1]);
                }
            }
            assert forall|i: int, j: int| 0 <= i < all.len() && 0 <= j < all.len() && i != j implies all[i]
                != all[j] by {
                if i < kept.len() && j < kept.len() {
                    assert(kept[i] != kept[j]);
                } else if i < kept.len() {
                    assert(kept.contains(kept[i]));
                } else {
                    assert(kept.contains(kept[j]));
                }
            }
            assert forall|x: A| all.contains(x) <==> s.contains(x) && p(x) by {
                if all.contains(x) {
                    let i = all.index_of(x);
                    if i < kept.len() {
                        assert(kept.contains(kept[i]));
                    }
                }
                if s.contains(x) && p(x) {
                    if x == s.last() {
                        assert(all[kept.len() as int] == x);
                    } else {
                        let i = kept.index_of(x);
                        assert(kept.contains(x));
                        assert(all[i] == x);
                    }
                }
            }
        }
    }
}

/// Removing the one occurrence of `x` changes the membership of `x` only.
pub proof fn lemma_without(s: Seq<Seq<char>>, x: Seq<char>)
    requires
        s.no_duplicates(),
    ensures
        without(s, x).no_duplicates(),
        !without(s, x).contains(x),
        forall|y: Seq<char>| y != x ==> without(s, x).contains(y) == s.contains(y),
        without(s, x).len() == if s.contains(x) { s.len() - 1 } else { s.len() as int },
{
    if s.contains(x) {
        let i = s.index_of(x);
        let t = s.remove(i);
        assert forall|a: int| 0 <= a < t.len() implies t[a] == s[if a < i { a } else { a + 1 }] by {}
        assert forall|y: Seq<char>| y != x implies t.contains(y) == s.contains(y) by {
            if s.contains(y) {
                let b = s.index_of(y);
                assert(t[if b < i { b } else { b - 1 }] == y);
            }
        }
    }
}

impl Scheduler {
    /// The graph the scheduler owns.
    pub closed spec fn graph_spec(&self) -> Graph {
        self.graph
    }

    /// The ids of the running tasks, in the order in which they started.
    pub closed spec fn running(&self) -> Seq<Seq<char>> {
        self.running.deep_view()
    }

    /// The graph is sound and no task is in the running set twice.
    pub open spec fn wf(&self) -> bool {
        self.graph_spec().wf() && self.running().no_duplicates()
    }

    /// Whether the task `id` is in the running set.
    pub open spec fn is_running(&self, id: Seq<char>) -> bool {
        self.running().contains(id)
    }

    /// Whether the task `id` may start now: it is pending, every task it
    /// depends on is done, and it is not running.
    pub open spec fn schedulable(&self, id: Seq<char>) -> bool {
        self.graph_spec().ready(id) && !self.is_running(id)
    }

    /// The ids that may start now, in the order of the task table.
    pub open spec fn schedule(&self) -> Seq<Seq<char>> {
        self.graph_spec().tasks.keys().filter(|id: Seq<char>| self.schedulable(id))
    }

    /// Nothing runs and every task has ended, done or failed.
    pub open spec fn finished(&self) -> bool {
        &&& self.running().len() == 0
        &&& forall|i: int|
            0 <= i < self.graph_spec().tasks.values().len()
                ==> (#[trigger] self.graph_spec().tasks.values()[i]).status.is_terminal()
    }

    /// Whether `post` is `pre` after the task `id` was moved to `status`:
    /// into the running set when it starts, out of it otherwise.
    pub open spec fn moved(
        pre: &Scheduler,
        post: &Scheduler,
        id: Seq<char>,
        status: GraphTaskStatus,
    ) -> bool {
        &&& pre.graph_spec().tasks.has(id)
        &&& Graph::restatused(&pre.graph_spec(), &post.graph_spec(), id, status)
        &&& post.running() == if status == GraphTaskStatus::InProgress {
            with_member(pre.running(), id)
        } else {
            without(pre.running(), id)
        }
    }

    /// Whether `post` is `pre` after the task `id`, which is known, was
    /// marked with `status`: the task is moved where it may move, and
    /// nothing at all changes where it may not.
    pub open spec fn marked(
        pre: &Scheduler,
        post: &Scheduler,
        id: Seq<char>,
        status: GraphTaskStatus,
    ) -> bool {
        &&& pre.graph_spec().tasks.has(id)
        &&& if pre.graph_spec().status_of(id).may_become(status) {
            Scheduler::moved(pre, post, id, status)
        } else {
            *post == *pre
        }
    }

    /// A scheduler on `graph` with nothing running.
    pub fn new(graph: Graph) -> (s: Self)
        requires
            graph.wf(),
        ensures
            s.wf(),
            s.graph_spec() == graph,
            s.running() == Seq::<Seq<char>>::empty(),
    {
        let s = Scheduler { graph, running: Vec::new() };
        assert(s.running() =~= Seq::<Seq<char>>::empty());
        s
    }

    fn holds_running(&self, id: &str) -> (r: Option<usize>)
        ensures
            match r {
                Some(i) => i < self.running().len() && self.running()[i as int] == id@,
                None => !self.is_running(id@),
            },
    {
        let mut i: usize = 0;
        while i < self.running.len()
            invariant
                i <= self.running@.len(),
                self.running().len() == self.running@.len(),
                forall|j: int| 0 <= j < i ==> self.running()[j] != id@,
            decreases self.running@.len() - i,
        {
            assert(self.running()[i as int] == self.running@[i as int]@);
            if str_eq(self.running[i].as_str(), id) {
                return Some(i);
            }
            i += 1;
        }
        None
    }

    /// The ids of the tasks to start now. The scheduler is left as it was,
    /// so the same ids come again until they are marked as started.
    pub fn schedule_next(&mut self) -> (next: Vec<String>)
        requires
            old(self).wf(),
        ensures
            *final(self) == *old(self),
            next.deep_view() == old(self).schedule(),
            forall|id: Seq<char>| next.deep_view().contains(id) <==> old(self).schedulable(id),
    {
        let ready = self.graph.get_ready_tasks();
        let mut next: Vec<String> = Vec::new();
        let ghost idle = |id: Seq<char>| !self.is_running(id);
        let mut i: usize = 0;
        assert(ready.deep_view().take(0) =~= Seq::empty());
        while i < ready.len()
            invariant
                i <= ready.len(),
                idle == |id: Seq<char>| !self.is_running(id),
                next.deep_view() == ready.deep_view().take(i as int).filter(idle),
            decreases ready.len() - i,
        {
            proof {
                let ids = ready.deep_view();
                assert(ids.take(i + 1) =~= ids.take(i as int).push(ids[i as int]));
                ids.take(i as int).lemma_filter_push(ids[i as int], idle);
                assert(ids[i as int] == ready@[i as int]@);
            }
            if self.holds_running(ready[i].as_str()).is_none() {
                let ghost before = next.deep_view();
                next.push(ready[i].clone());
                assert(next.deep_view() =~= before.push(ready@[i as int]@));
            }
            i += 1;
        }
        proof {
            assert(ready.deep_view().take(ready.len() as int) =~= ready.deep_view());
            let is_ready = |id: Seq<char>| self.graph_spec().ready(id);
            let both = |id: Seq<char>| is_ready(id) && idle(id);
            lemma_filter_twice(self.graph_spec().tasks.keys(), is_ready, idle);
            assert(both =~= (|id: Seq<char>| self.schedulable(id)));
            self.lemma_schedule_members();
        }
        next
    }

    /// An id is handed out for starting exactly when its task is pending,
    /// all the tasks it depends on are done, and it is not running.
    pub proof fn lemma_schedule_members(&self)
        requires
            self.wf(),
        ensures
            forall|id: Seq<char>|
                self.schedule().contains(id) <==> {
                    &&& self.graph_spec().tasks.has(id)
                    &&& self.graph_spec().status_of(id) == GraphTaskStatus::Pending
                    &&& self.graph_spec().all_deps_done(self.graph_spec().tasks.at(id).deps())
                    &&& !self.is_running(id)
                },
    {
        let keys = self.graph_spec().tasks.keys();
        let pred = |id: Seq<char>| self.schedulable(id);
        broadcast use vstd::seq_lib::group_filter_ensures;

        assert forall|id: Seq<char>| self.schedule().contains(id) <==> self.schedulable(id) by {
            if self.schedule().contains(id) {
                let i = self.schedule().index_of(id);
                assert(pred(self.schedule()[i]));
            }
            if self.schedulable(id) {
                let i = keys.index_of(id);
                assert(keys.filter(pred).contains(keys[i]));
            }
        }
    }

    fn mark(&mut self, task_id: &str, status: GraphTaskStatus) -> (r: Result<(), GraphError>)
        requires
            old(self).wf(),
        ensures
            final(self).wf(),
            match r {
                Ok(()) => Scheduler::marked(old(self), final(self), task_id@, status),
                Err(GraphError::TaskNotFound { task_id: named }) => {
                    &&& !old(self).graph_spec().tasks.has(task_id@)
                    &&& *final(self) == *old(self)
                    &&& named@ == task_id@
                },
            },
    {
        let movable = match self.graph.get_task(task_id) {
            Some(task) => task.status.can_become(status),
            None => false,
        };
        match self.graph.update_task_status(task_id, status) {
            Ok(()) => {},
            Err(e) => {
                return Err(e);
            },
        }
        if !movable {
            return Ok(());
        }
        let found = self.holds_running(task_id);
        match status {
            GraphTaskStatus::InProgress => {
                if found.is_none() {
                    let ghost before = self.running();
                    self.running.push(crate::text::string_of(&crate::text::chars_of(task_id)));
                    assert(self.running() =~= before.push(task_id@));
                    assert(self.running().no_duplicates()) by {
                        assert forall|a: int, b: int|
                            0 <= a < self.running().len() && 0 <= b < self.running().len() && a
                                != b implies self.running()[a] != self.running()[b] by {
                            if a < before.len() && b < before.len() {
                                assert(before[a] != before[b]);
                            } else if a < before.len() {
                                assert(before.contains(before[a]));
                            } else {
                                assert(before.contains(before[b]));
                            }
                        }
                    }
                }
            },
            _ => {
                proof {
                    lemma_without(self.running(), task_id@);
                }
                match found {
                    Some(i) => {
                        let ghost before = self.running();
                        assert(before.index_of(task_id@) == i) by {
                            let j = before.index_of(task_id@);
                            assert(before.contains(task_id@));
                        }
                        self.running.remove(i);
                        assert(self.running() =~= before.remove(i as int));
                    },
                    None => {},
                }
            },
        }
        Ok(())
    }

    /// Records that the task `task_id` has started: a pending task goes
    /// into progress and joins the running set. A task that is not
    /// pending is left as it is, and so is everything else. Refused, with
    /// nothing changed, when there is no such task.
    pub fn mark_started(&mut self, task_id: &str) -> (r: Result<(), GraphError>)
        requires
            old(self).wf(),
        ensures
            final(self).wf(),
            match r {
                Ok(()) => Scheduler::marked(
                    old(self),
                    final(self),
                    task_id@,
                    GraphTaskStatus::InProgress,
                ),
                Err(GraphError::TaskNotFound { task_id: named }) => {
                    &&& !old(self).graph_spec().tasks.has(task_id@)
                    &&& *final(self) == *old(self)
                    &&& named@ == task_id@
                },
            },
    {
        self.mark(task_id, GraphTaskStatus::InProgress)
    }

    /// Records that the task `task_id` has completed: a task that is
    /// pending or in progress becomes done and leaves the running set. A
    /// task that has ended already, or is planned, is left as it is, and
    /// so is everything else. Refused, with nothing changed, when there is
    /// no such task.
    pub fn mark_done(&mut self, task_id: &str) -> (r: Result<(), GraphError>)
        requires
            old(self).wf(),
        ensures
            final(self).wf(),
            match r {
                Ok(()) => Scheduler::marked(old(self), final(self), task_id@, GraphTaskStatus::Done),
                Err(GraphError::TaskNotFound { task_id: named }) => {
                    &&& !old(self).graph_spec().tasks.has(task_id@)
                    &&& *final(self) == *old(self)
                    &&& named@ == task_id@
                },
            },
    {
        self.mark(task_id, GraphTaskStatus::Done)
    }

    /// Records that the task `task_id` has failed: a task that is
    /// pending or in progress becomes failed and leaves the running set.
    /// A task that has ended already, or is planned, is left as it is,
    /// and so is everything else. Refused, with nothing changed, when
    /// there is no such task.
    pub fn mark_failed(&mut self, task_id: &str) -> (r: Result<(), GraphError>)
        requires
            old(self).wf(),
        ensures
            final(self).wf(),
            match r {
                Ok(()) => Scheduler::marked(old(self), final(self), task_id@, GraphTaskStatus::Failed),
                Err(GraphError::TaskNotFound { task_id: named }) => {
                    &&& !old(self).graph_spec().tasks.has(task_id@)
                    &&& *final(self) == *old(self)
                    &&& named@ == task_id@
                },
            },
    {
        self.mark(task_id, GraphTaskStatus::Failed)
    }

    /// The ids of the running tasks.
    pub fn get_running(&self) -> (ids: Vec<String>)
        ensures
            ids.deep_view() == self.running(),
    {
        let mut ids: Vec<String> = Vec::new();
        let mut i: usize = 0;
        while i < self.running.len()
            invariant
                i <= self.running@.len(),
                ids.deep_view() == self.running().take(i as int),
            decreases self.running@.len() - i,
        {
            let ghost before = ids.deep_view();
            ids.push(self.running[i].clone());
            assert(ids.deep_view() =~= before.push(self.running@[i as int]@));
            assert(self.running().take(i + 1) =~= self.running().take(i as int).push(
                self.running()[i as int],
            ));
            i += 1;
        }
        assert(self.running().take(self.running@.len() as int) =~= self.running());
        ids
    }

    /// The graph the scheduler owns.
    pub fn graph(&self) -> (g: &Graph)
        ensures
            *g == self.graph_spec(),
    {
        &self.graph
    }

    /// Whether nothing runs and every task has ended, done or failed.
    pub fn all_done(&self) -> (b: bool)
        requires
            self.wf(),
        ensures
            b == self.finished(),
    {
        if self.running.len() != 0 {
            return false;
        }
        let n = self.graph.tasks.len();
        let mut i: usize = 0;
        while i < n
            invariant
                self.wf(),
                i <= n,
                n == self.graph_spec().tasks.keys().len(),
                forall|j: int| 0 <= j < i ==> (#[trigger] self.graph_spec().tasks.values()[j]).status.is_terminal(),
            decreases n - i,
        {
            let task = self.graph.tasks.value_at(i);
            if !(task.status == GraphTaskStatus::Done || task.status == GraphTaskStatus::Failed) {
                return false;
            }
            i += 1;
        }
        true
    }
}

/// Whether each id of `chain` names a task of `graph` that depends directly
/// on the task named by the next id.
pub open spec fn depends_along(graph: &Graph, chain: Seq<Seq<char>>) -> bool {
    &&& chain.len() >= 2
    &&& forall|k: int| 0 <= k < chain.len() ==> graph.tasks.has(#[trigger] chain[k])
    &&& forall|k: int|
        0 <= k < chain.len() - 1 ==> graph.tasks.at(#[trigger] chain[k]).deps().contains(chain[k + 1])
}

impl Scheduler {
    /// Every task that is in progress or done has all its dependencies
    /// done. This holds of a graph whose tasks are all pending, and every
    /// move of the driver keeps it.
    pub open spec fn settled(&self) -> bool {
        forall|id: Seq<char>|
            #![trigger self.graph_spec().tasks.has(id)]
            self.graph_spec().tasks.has(id) && (self.graph_spec().status_of(id)
                == GraphTaskStatus::InProgress || self.graph_spec().status_of(id)
                == GraphTaskStatus::Done) ==> self.graph_spec().all_deps_done(
                self.graph_spec().tasks.at(id).deps(),
            )
    }

    /// Whether the task `id` may be brought to an end: it is in progress,
    /// or it is up for starting and ends without having run.
    pub open spec fn may_end(&self, id: Seq<char>) -> bool {
        &&& self.graph_spec().tasks.has(id)
        &&& (self.graph_spec().status_of(id) == GraphTaskStatus::InProgress || self.schedulable(id))
    }

    /// One move of the driver on the task `id`: it starts a task that is up
    /// for starting, or brings to an end, done or failed, a task that may
    /// end.
    pub open spec fn step_on(pre: &Scheduler, post: &Scheduler, id: Seq<char>) -> bool {
        ||| pre.schedulable(id) && Scheduler::moved(pre, post, id, GraphTaskStatus::InProgress)
        ||| pre.may_end(id) && Scheduler::moved(pre, post, id, GraphTaskStatus::Done)
        ||| pre.may_end(id) && Scheduler::moved(pre, post, id, GraphTaskStatus::Failed)
    }

    /// One move of the driver on some task.
    pub open spec fn driver_step(pre: &Scheduler, post: &Scheduler) -> bool {
        exists|id: Seq<char>| Scheduler::step_on(pre, post, id)
    }

    /// Moving one task changes the status of that task and nothing else:
    /// every task keeps its place, its dependencies and, but for the moved
    /// one, its status.
    pub proof fn lemma_moved(
        pre: &Scheduler,
        post: &Scheduler,
        id: Seq<char>,
        status: GraphTaskStatus,
    )
        requires
            pre.wf(),
            Scheduler::moved(pre, post, id, status),
        ensures
            post.wf(),
            post.graph_spec().status_of(id) == status,
            forall|x: Seq<char>| post.graph_spec().tasks.has(x) == pre.graph_spec().tasks.has(x),
            forall|x: Seq<char>|
                #![trigger post.graph_spec().tasks.at(x)]
                pre.graph_spec().tasks.has(x) ==> {
                    &&& post.graph_spec().tasks.at(x).deps() == pre.graph_spec().tasks.at(x).deps()
                    &&& x != id ==> post.graph_spec().tasks.at(x) == pre.graph_spec().tasks.at(x)
                },
    {
        let before = pre.graph_spec().tasks;
        let after = post.graph_spec().tasks;
        let at = before.slot(id);
        assert(before.keys().contains(id));
        assert(0 <= at < before.keys().len() && before.keys()[at] == id);
        assert forall|x: Seq<char>| before.has(x) implies {
            &&& after.at(x).deps() == before.at(x).deps()
            &&& x != id ==> after.at(x) == before.at(x)
        } by {
            let j = before.slot(x);
            assert(before.keys().contains(x));
            assert(0 <= j < before.keys().len() && before.keys()[j] == x);
            if x != id {
                assert(j != at);
            }
        }
        if status == GraphTaskStatus::InProgress {
            let r = pre.running();
            if !r.contains(id) {
                assert forall|a: int, b: int|
                    0 <= a < r.push(id).len() && 0 <= b < r.push(id).len() && a != b implies r.push(
                    id,
                )[a] != r.push(id)[b] by {
                    if a < r.len() && b < r.len() {
                        assert(r[a] != r[b]);
                    } else if a < r.len() {
                        assert(r.contains(r[a]));
                    } else {
                        assert(r.contains(r[b]));
                    }
                }
            }
        } else {
            lemma_without(pre.running(), id);
        }
    }

    /// Once all is done it stays so: nothing is handed out for starting
    /// any more, and marking any task as started, done or failed leaves
    /// the scheduler as it is, with every task ended and nothing running.
    pub proof fn lemma_finished_is_stable(
        pre: &Scheduler,
        post: &Scheduler,
        id: Seq<char>,
        status: GraphTaskStatus,
    )
        requires
            pre.wf(),
            pre.finished(),
            Scheduler::marked(pre, post, id, status),
        ensures
            pre.schedule() == Seq::<Seq<char>>::empty(),
            *post == *pre,
            post.finished(),
    {
        pre.lemma_finished_schedules_nothing();
        let tasks = pre.graph_spec().tasks;
        assert(tasks.keys().contains(id));
        assert(tasks.values()[tasks.slot(id)].status.is_terminal());
    }

    /// A mark moves no status backwards: each task has the status it
    /// had, or one to which that status may move.
    pub proof fn lemma_marks_move_forward(
        pre: &Scheduler,
        post: &Scheduler,
        id: Seq<char>,
        status: GraphTaskStatus,
    )
        requires
            pre.wf(),
            Scheduler::marked(pre, post, id, status),
        ensures
            post.wf(),
            forall|x: Seq<char>| post.graph_spec().tasks.has(x) == pre.graph_spec().tasks.has(x),
            forall|x: Seq<char>|
                #![trigger post.graph_spec().status_of(x)]
                pre.graph_spec().tasks.has(x) ==> post.graph_spec().status_of(x)
                    == pre.graph_spec().status_of(x) || pre.graph_spec().status_of(x).may_become(
                    post.graph_spec().status_of(x),
                ),
    {
        if pre.graph_spec().status_of(id).may_become(status) {
            Scheduler::lemma_moved(pre, post, id, status);
        }
    }

    /// A task that has ended stays as it ended, whatever it is marked
    /// with, and so does a planned task.
    pub proof fn lemma_ended_stays(
        pre: &Scheduler,
        post: &Scheduler,
        id: Seq<char>,
        status: GraphTaskStatus,
    )
        requires
            pre.wf(),
            Scheduler::marked(pre, post, id, status),
            pre.graph_spec().status_of(id).is_terminal() || pre.graph_spec().status_of(id)
                == GraphTaskStatus::Planned,
        ensures
            *post == *pre,
    {
    }

    /// When all is done, no task is up for starting.
    pub proof fn lemma_finished_schedules_nothing(&self)
        requires
            self.wf(),
            self.finished(),
        ensures
            self.schedule() == Seq::<Seq<char>>::empty(),
            forall|id: Seq<char>| !self.schedulable(id),
    {
        self.lemma_schedule_members();
        assert forall|id: Seq<char>| !self.schedulable(id) by {
            if self.graph_spec().tasks.has(id) {
                let i = self.graph_spec().tasks.slot(id);
                assert(self.graph_spec().tasks.keys().contains(id));
                assert(self.graph_spec().tasks.values()[i].status.is_terminal());
            }
        }
        if self.schedule().len() > 0 {
            assert(self.schedule().contains(self.schedule()[0]));
        }
        assert(self.schedule() =~= Seq::<Seq<char>>::empty());
    }

    /// A move of the driver keeps the scheduler settled, and leaves every
    /// failed task failed.
    pub proof fn lemma_step_keeps_settled(pre: &Scheduler, post: &Scheduler)
        requires
            pre.wf(),
            pre.settled(),
            Scheduler::driver_step(pre, post),
        ensures
            post.wf(),
            post.settled(),
            forall|x: Seq<char>|
                pre.graph_spec().tasks.has(x) && pre.graph_spec().status_of(x)
                    == GraphTaskStatus::Failed ==> post.graph_spec().status_of(x)
                    == GraphTaskStatus::Failed,
    {
        let id = choose|id: Seq<char>| Scheduler::step_on(pre, post, id);
        let g = pre.graph_spec();
        let h = post.graph_spec();
        if pre.schedulable(id) && Scheduler::moved(pre, post, id, GraphTaskStatus::InProgress) {
            Scheduler::lemma_moved(pre, post, id, GraphTaskStatus::InProgress);
        } else if pre.may_end(id) && Scheduler::moved(pre, post, id, GraphTaskStatus::Done) {
            Scheduler::lemma_moved(pre, post, id, GraphTaskStatus::Done);
        } else {
            Scheduler::lemma_moved(pre, post, id, GraphTaskStatus::Failed);
        }
        assert(g.status_of(id) != GraphTaskStatus::Done && g.status_of(id) != GraphTaskStatus::Failed);
        assert(g.status_of(id) == GraphTaskStatus::InProgress || g.ready(id));
        assert(g.all_deps_done(g.tasks.at(id).deps()));
        // a task whose dependencies are all done does not depend on `id`,
        // so its dependencies are as done afterwards as they were before
        assert forall|x: Seq<char>| g.tasks.has(x) && g.all_deps_done(g.tasks.at(x).deps()) implies h.all_deps_done(
            h.tasks.at(x).deps(),
        ) by {
            let deps = g.tasks.at(x).deps();
            assert(h.tasks.at(x).deps() == deps);
            assert forall|k: int| 0 <= k < deps.len() implies h.dep_done(#[trigger] deps[k]) by {
                assert(g.dep_done(deps[k]));
                assert(deps[k] != id);
                assert(h.tasks.at(deps[k]) == g.tasks.at(deps[k]));
            }
        }
        assert forall|x: Seq<char>|
            #![trigger h.tasks.has(x)]
            h.tasks.has(x) && (h.status_of(x) == GraphTaskStatus::InProgress || h.status_of(x)
                == GraphTaskStatus::Done) implies h.all_deps_done(h.tasks.at(x).deps()) by {
            assert(g.tasks.has(x));
            if x != id {
                assert(h.tasks.at(x) == g.tasks.at(x));
            }
        }
    }

    /// In a settled scheduler with a failed task at the end of `chain`, no
    /// task of the chain after the first is done.
    proof fn lemma_not_done_along(&self, chain: Seq<Seq<char>>, k: int)
        requires
            self.wf(),
            self.settled(),
            depends_along(&self.graph_spec(), chain),
            self.graph_spec().status_of(chain.last()) == GraphTaskStatus::Failed,
            1 <= k < chain.len(),
        ensures
            self.graph_spec().status_of(chain[k]) != GraphTaskStatus::Done,
        decreases chain.len() - k,
    {
        let g = self.graph_spec();
        if k < chain.len() - 1 {
            self.lemma_not_done_along(chain, k + 1);
            let deps = g.tasks.at(chain[k]).deps();
            assert(deps.contains(chain[k + 1]));
            let j = deps.index_of(chain[k + 1]);
            assert(!g.dep_done(deps[j]));
            assert(!g.all_deps_done(deps));
            assert(g.tasks.has(chain[k]));
        }
    }

    /// In a settled scheduler, a task that depends, directly or through
    /// other tasks, on a failed task is not up for starting.
    pub proof fn lemma_failed_dependency_blocks(&self, chain: Seq<Seq<char>>)
        requires
            self.wf(),
            self.settled(),
            depends_along(&self.graph_spec(), chain),
            self.graph_spec().status_of(chain.last()) == GraphTaskStatus::Failed,
        ensures
            !self.graph_spec().ready(chain[0]),
            !self.schedulable(chain[0]),
            !self.schedule().contains(chain[0]),
    {
        let g = self.graph_spec();
        self.lemma_not_done_along(chain, 1);
        let deps = g.tasks.at(chain[0]).deps();
        assert(deps.contains(chain[0int + 1]));
        let j = deps.index_of(chain[1]);
        assert(!g.dep_done(deps[j]));
        assert(!g.all_deps_done(deps));
        self.lemma_schedule_members();
    }

    /// Along the moves of the driver the scheduler stays settled, the
    /// chain of dependencies stays, and the failed task stays failed.
    proof fn lemma_trace_keeps(trace: Seq<Scheduler>, chain: Seq<Seq<char>>, k: int)
        requires
            trace.len() > 0,
            trace[0].wf(),
            trace[0].settled(),
            forall|j: int|
                #![trigger trace[j]]
                0 <= j < trace.len() - 1 ==> Scheduler::driver_step(&trace[j], &trace[j + 1]),
            depends_along(&trace[0].graph_spec(), chain),
            trace[0].graph_spec().status_of(chain.last()) == GraphTaskStatus::Failed,
            0 <= k < trace.len(),
        ensures
            trace[k].wf(),
            trace[k].settled(),
            depends_along(&trace[k].graph_spec(), chain),
            trace[k].graph_spec().status_of(chain.last()) == GraphTaskStatus::Failed,
        decreases k,
    {
        if k > 0 {
            Scheduler::lemma_trace_keeps(trace, chain, k - 1);
            let pre = trace[k - 1];
            let post = trace[k];
            assert(Scheduler::driver_step(&trace[k - 1], &trace[k - 1 + 1]));
            Scheduler::lemma_step_keeps_settled(&pre, &post);
            let id = choose|id: Seq<char>| Scheduler::step_on(&pre, &post, id);
            if pre.schedulable(id) && Scheduler::moved(&pre, &post, id, GraphTaskStatus::InProgress) {
                Scheduler::lemma_moved(&pre, &post, id, GraphTaskStatus::InProgress);
            } else if pre.may_end(id) && Scheduler::moved(&pre, &post, id, GraphTaskStatus::Done) {
                Scheduler::lemma_moved(&pre, &post, id, GraphTaskStatus::Done);
            } else {
                Scheduler::lemma_moved(&pre, &post, id, GraphTaskStatus::Failed);
            }
            assert(pre.graph_spec().tasks.has(chain.last()));
            assert forall|j: int| 0 <= j < chain.len() - 1 implies post.graph_spec().tasks.at(
                #[trigger] chain[j],
            ).deps().contains(chain[j + 1]) by {
                assert(pre.graph_spec().tasks.has(chain[j]));
            }
        }
    }

    /// A task that depends, directly or through other tasks, on a failed
    /// task is never handed out for starting, whatever moves the driver
    /// makes from a settled scheduler.
    pub proof fn lemma_failure_blocks_forever(trace: Seq<Scheduler>, chain: Seq<Seq<char>>)
        requires
            trace.len() > 0,
            trace[0].wf(),
            trace[0].settled(),
            forall|k: int|
                #![trigger trace[k]]
                0 <= k < trace.len() - 1 ==> Scheduler::driver_step(&trace[k], &trace[k + 1]),
            depends_along(&trace[0].graph_spec(), chain),
            trace[0].graph_spec().status_of(chain.last()) == GraphTaskStatus::Failed,
        ensures
            forall|k: int|
                0 <= k < trace.len() ==> !(#[trigger] trace[k]).schedule().contains(chain[0]),
    {
        assert forall|k: int| 0 <= k < trace.len() implies !(#[trigger] trace[k]).schedule().contains(
            chain[0],
        ) by {
            Scheduler::lemma_trace_keeps(trace, chain, k);
            trace[k].lemma_failed_dependency_blocks(chain);
        }
    }
}

} // verus!
