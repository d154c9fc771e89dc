//! The layers of a graph: its tasks grouped by how deep they stand in the
//! chains of dependencies.

use crate::graph::Graph;
use crate::text::lex_sorted;
use crate::text::sorted_strings;
use vstd::prelude::*;

verus! {

/// The greater of two numbers.
pub open spec fn larger(a: nat, b: nat) -> nat {
    if a >= b {
        a
    } else {
        b
    }
}

/// The depth of `id`, followed along at most `fuel` dependencies: nought
/// for an id that names no task and for a task that depends on nothing,
/// else one more than the greatest depth of what the task depends on.
/// In a graph without cycles this is the length of the longest chain of
/// dependencies below the task, once `fuel` is the number of tasks.
pub open spec fn depth_within(graph: &Graph, id: Seq<char>, fuel: nat) -> nat
    decreases fuel, 0nat,
{
    if fuel == 0 || !graph.tasks.has(id) {
        0
    } else {
        let deps = graph.tasks.at(id).deps();
        deps_depth(graph, deps, deps.len(), (fuel - 1) as nat)
    }
}

/// One more than the greatest depth of the first `n` of `deps`; nought
/// where `n` is nought.
pub open spec fn deps_depth(graph: &Graph, deps: Seq<Seq<char>>, n: nat, fuel: nat) -> nat
    decreases fuel, n,
{
    if n == 0 {
        0
    } else {
        larger(
            deps_depth(graph, deps, (n - 1) as nat, fuel),
            depth_within(graph, deps[n - 1], fuel) + 1,
        )
    }
}

/// The depth of a task in `graph`: the depth within as many dependencies
/// as the graph has tasks.
pub open spec fn depth_of(graph: &Graph, id: Seq<char>) -> nat {
    depth_within(graph, id, graph.tasks.keys().len())
}

/// A depth within `fuel` dependencies is at most `fuel`.
pub proof fn lemma_depth_bound(graph: &Graph, id: Seq<char>, fuel: nat)
    ensures
        depth_within(graph, id, fuel) <= fuel,
    decreases fuel, 0nat,
{
    if fuel > 0 && graph.tasks.has(id) {
        let deps = graph.tasks.at(id).deps();
        lemma_deps_depth_bound(graph, deps, deps.len(), (fuel - 1) as nat);
    }
}

/// The depth of dependencies within `fuel` dependencies is at most one
/// more than `fuel`.
pub proof fn lemma_deps_depth_bound(graph: &Graph, deps: Seq<Seq<char>>, n: nat, fuel: nat)
    ensures
        deps_depth(graph, deps, n, fuel) <= fuel + 1,
    decreases fuel, n,
{
    if n > 0 {
        lemma_deps_depth_bound(graph, deps, (n - 1) as nat, fuel);
        lemma_depth_bound(graph, deps[n - 1], fuel);
    }
}

/// The depth of each task of `graph`, in the order of the task table.
pub fn task_depths(graph: &Graph) -> (depths: Vec<usize>)
    requires
        graph.wf(),
    ensures
        depths@.len() == graph.tasks.keys().len(),
        forall|i: int|
            0 <= i < depths@.len() ==> #[trigger] depths@[i] == depth_of(graph, graph.tasks.keys()[i]),
        forall|i: int| 0 <= i < depths@.len() ==> #[trigger] depths@[i] <= depths@.len(),
{
    let n = graph.tasks.len();
    let ghost keys = graph.tasks.keys();
    let mut current: Vec<usize> = Vec::new();
    let mut i: usize = 0;
    while i < n
        invariant
            i <= n,
            current@.len() == i,
            forall|j: int| 0 <= j < i ==> #[trigger] current@[j] == depth_within(graph, keys[j], 0),
        decreases n - i,
    {
        current.push(0);
        i += 1;
    }
    let mut round: usize = 0;
    while round < n
        invariant
            graph.wf(),
            n == graph.tasks.keys().len(),
            keys == graph.tasks.keys(),
            round <= n,
            current@.len() == n,
            forall|j: int| 0 <= j < n ==> #[trigger] current@[j] == depth_within(graph, keys[j], round as nat),
        decreases n - round,
    {
        let mut next: Vec<usize> = Vec::new();
        let mut t: usize = 0;
        while t < n
            invariant
                graph.wf(),
                n == graph.tasks.keys().len(),
                keys == graph.tasks.keys(),
                round < n,
                t <= n,
                current@.len() == n,
                next@.len() == t,
                forall|j: int|
                    0 <= j < n ==> #[trigger] current@[j] == depth_within(graph, keys[j], round as nat),
                forall|j: int|
                    0 <= j < t ==> #[trigger] next@[j] == depth_within(graph, keys[j], (round + 1) as nat),
            decreases n - t,
        {
            let task = graph.tasks.value_at(t);
            proof {
                graph.tasks.lemma_slot(keys[t as int], t as int);
            }
            let mut deepest: usize = 0;
            match &task.depends_on {
                Some(deps) => {
                    let mut k: usize = 0;
                    while k < deps.len()
                        invariant
                            graph.wf(),
                            n == graph.tasks.keys().len(),
                            keys == graph.tasks.keys(),
                            round < n,
                            current@.len() == n,
                            task.depends_on == Some(*deps),
                            k <= deps@.len(),
                            forall|j: int|
                                0 <= j < n ==> #[trigger] current@[j] == depth_within(
                                    graph,
                                    keys[j],
                                    round as nat,
                                ),
                            deepest == deps_depth(graph, task.deps(), k as nat, round as nat),
                        decreases deps@.len() - k,
                    {
                        let below: usize = match graph.tasks.position(deps[k].as_str()) {
                            Some(j) => current[j],
                            None => 0,
                        };
                        proof {
                            assert(task.deps()[k as int] == deps@[k as int]@);
                            lemma_depth_bound(graph, task.deps()[k as int], round as nat);
                        }
                        if below + 1 > deepest {
                            deepest = below + 1;
                        }
                        k += 1;
                    }
                },
                None => {},
            }
            assert(deepest == depth_within(graph, keys[t as int], (round + 1) as nat));
            next.push(deepest);
            t += 1;
        }
        current = next;
        round += 1;
    }
    proof {
        assert forall|i: int| 0 <= i < current@.len() implies #[trigger] current@[i] <= current@.len() by {
            lemma_depth_bound(graph, keys[i], n as nat);
        }
    }
    current
}

/// The depth of the task `task_id` in `graph`; nought for an id that
/// names no task.
pub fn calculate_depth(task_id: &str, graph: &Graph) -> (depth: usize)
    requires
        graph.wf(),
    ensures
        depth == depth_of(graph, task_id@),
{
    match graph.tasks.position(task_id) {
        Some(i) => task_depths(graph)[i],
        None => 0,
    }
}

/// The ids of the tasks among the first `n` that stand at the depth
/// `depth`, in the order of the task table.
pub open spec fn at_depth(graph: &Graph, depth: nat, n: int) -> Seq<Seq<char>>
    decreases n,
{
    if n <= 0 {
        Seq::empty()
    } else if depth_of(graph, graph.tasks.keys()[n - 1]) == depth {
        at_depth(graph, depth, n - 1).push(graph.tasks.keys()[n - 1])
    } else {
        at_depth(graph, depth, n - 1)
    }
}

/// The greatest depth among the first `n` tasks; nought where there are
/// none.
pub open spec fn greatest_depth(graph: &Graph, n: int) -> nat
    decreases n,
{
    if n <= 0 {
        0
    } else {
        larger(greatest_depth(graph, n - 1), depth_of(graph, graph.tasks.keys()[n - 1]))
    }
}

/// The layers of `graph`: one list of ids for each depth from nought to
/// the greatest, each holding the tasks that stand at that depth, in the
/// order of strings.
pub fn build_layers(graph: &Graph) -> (layers: Vec<Vec<String>>)
    requires
        graph.wf(),
    ensures
        layers@.len() == greatest_depth(graph, graph.tasks.keys().len() as int) + 1,
        forall|d: int|
            0 <= d < layers@.len() ==> {
                &&& lex_sorted((#[trigger] layers@[d]).deep_view())
                &&& layers@[d].deep_view().to_multiset() == at_depth(
                    graph,
                    d as nat,
                    graph.tasks.keys().len() as int,
                ).to_multiset()
            },
{
    let depths = task_depths(graph);
    let n = graph.tasks.len();
    let ghost keys = graph.tasks.keys();
    let mut greatest: usize = 0;
    let mut i: usize = 0;
    while i < n
        invariant
            i <= n,
            n == depths@.len(),
            keys == graph.tasks.keys(),
            n == keys.len(),
            forall|j: int| 0 <= j < n ==> #[trigger] depths@[j] == depth_of(graph, keys[j]),
            greatest == greatest_depth(graph, i as int),
        decreases n - i,
    {
        if depths[i] > greatest {
            greatest = depths[i];
        }
        i += 1;
    }
    assert(greatest <= n) by {
        lemma_greatest_bound(graph, n as int);
    }
    let mut layers: Vec<Vec<String>> = Vec::new();
    let mut d: u128 = 0;
    while d <= greatest as u128
        invariant
            graph.wf(),
            d <= greatest + 1,
            greatest <= n,
            n == depths@.len(),
            keys == graph.tasks.keys(),
            n == keys.len(),
            forall|j: int| 0 <= j < n ==> #[trigger] depths@[j] == depth_of(graph, keys[j]),
            layers@.len() == d,
            forall|e: int|
                0 <= e < d ==> {
                    &&& lex_sorted((#[trigger] layers@[e]).deep_view())
                    &&& layers@[e].deep_view().to_multiset() == at_depth(graph, e as nat, n as int).to_multiset()
                },
        decreases greatest + 1 - d,
    {
        let mut ids: Vec<String> = Vec::new();
        let mut t: usize = 0;
        assert(ids.deep_view() =~= at_depth(graph, d as nat, 0));
        while t < n
            invariant
                graph.wf(),
                t <= n,
                n == depths@.len(),
                keys == graph.tasks.keys(),
                n == keys.len(),
                forall|j: int| 0 <= j < n ==> #[trigger] depths@[j] == depth_of(graph, keys[j]),
                ids.deep_view() == at_depth(graph, d as nat, t as int),
            decreases n - t,
        {
            if depths[t] as u128 == d {
                let ghost before = ids.deep_view();
                ids.push(graph.tasks.key_at(t).clone());
                assert(ids.deep_view() =~= before.push(keys[t as int]));
            }
            t += 1;
        }
        let layer = sorted_strings(&ids);
        let ghost done = layers@;
        layers.push(layer);
        assert forall|e: int| 0 <= e < d + 1 implies {
            &&& lex_sorted((#[trigger] layers@[e]).deep_view())
            &&& layers@[e].deep_view().to_multiset() == at_depth(graph, e as nat, n as int).to_multiset()
        } by {
            if e < d {
                assert(layers@[e] == done[e]);
            }
        }
        d += 1;
    }
    layers
}

/// The greatest depth is at most the number of tasks.
pub proof fn lemma_greatest_bound(graph: &Graph, n: int)
    requires
        0 <= n <= graph.tasks.keys().len(),
    ensures
        greatest_depth(graph, n) <= graph.tasks.keys().len(),
    decreases n,
{
    if n > 0 {
        lemma_greatest_bound(graph, n - 1);
        lemma_depth_bound(graph, graph.tasks.keys()[n - 1], graph.tasks.keys().len());
    }
}

} // verus!
