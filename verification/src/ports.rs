//! The registry of development-server ports: which project holds which
//! port, kept together with an index from port to project.
//!
//! Whether a port can be bound is found out by probing the machine. The
//! registry does not probe: it is handed a [`PortScan`], the list of the
//! ports that a probe found busy, and decides on that. Which ports have
//! to be probed for a decision it says one by one, see
//! [`PortRegistry::next_probe`], so that no more ports are probed than
//! the decision looks at.

use crate::strmap::lemma_put_others;
use crate::strmap::put_key;
use crate::strmap::put_value;
use crate::strmap::StrMap;
use crate::text::chars_of;
use crate::text::decimal;
use crate::text::owned;
use crate::text::push_decimal;
use crate::text::string_of;
use std::collections::HashMap;
use vstd::prelude::*;

verus! {

broadcast use vstd::std_specs::hash::group_hash_axioms;

/// The first port that is handed out unasked.
pub const PORT_RANGE_START: u16 = 3000;

/// The last port that is handed out unasked.
pub const PORT_RANGE_END: u16 = 3999;

/// What the registry knows of one project's port.
#[derive(Debug)]
pub struct PortEntry {
    pub port: u16,
    pub project: String,
    pub pid: Option<u32>,
    pub active: bool,
    pub allocated_at: u64,
    pub last_active: Option<u64>,
    pub description: Option<String>,
}

/// How a project's port stands.
#[derive(Debug, Clone, Copy, PartialEq, Eq, Structural)]
pub enum PortStatus {
    /// The project holds no port.
    Available,
    /// The project holds a port that is free on the machine.
    Reserved,
    /// The project holds a port and is marked as using it.
    Active,
    /// The project holds a port that something else has bound.
    ExternallyUsed,
}

/// Why no port could be handed out.
#[derive(Debug, Clone, Copy, PartialEq, Eq, Structural)]
pub enum PortError {
    /// Every port of the range is held or busy.
    Exhausted,
}

impl PortError {
    /// What the error says.
    pub open spec fn message_text(&self) -> Seq<char> {
        "No available ports in range "@ + decimal(PORT_RANGE_START as nat) + "-"@ + decimal(
            PORT_RANGE_END as nat,
        )
    }

    /// What the error says.
    pub fn message(&self) -> (s: String)
        ensures
            s@ == self.message_text(),
    {
        let mut out = chars_of("No available ports in range ");
        push_decimal(&mut out, PORT_RANGE_START as u64);
        crate::text::push_str(&mut out, "-");
        push_decimal(&mut out, PORT_RANGE_END as u64);
        string_of(&out)
    }
}

/// The ports that a probe of the machine found busy. Every other port
/// counts as free.
pub struct PortScan {
    busy: Vec<u16>,
}

impl PortScan {
    /// Whether `port` can be bound.
    pub closed spec fn free(&self, port: u16) -> bool {
        !self.busy@.contains(port)
    }

    /// The scan that found the ports of `busy` bound and no others.
    pub fn new(busy: Vec<u16>) -> (scan: Self)
        ensures
            forall|port: u16| scan.free(port) == !busy@.contains(port),
    {
        PortScan { busy }
    }

    /// Whether `port` can be bound.
    pub fn is_free(&self, port: u16) -> (b: bool)
        ensures
            b == self.free(port),
    {
        let mut i: usize = 0;
        while i < self.busy.len()
            invariant
                i <= self.busy@.len(),
                forall|j: int| 0 <= j < i ==> self.busy@[j] != port,
            decreases self.busy@.len() - i,
        {
            if self.busy[i] == port {
                return false;
            }
            i += 1;
        }
        true
    }
}

/// What has been found out so far about the ports of the machine: the
/// ports that were probed, each with what the probe found.
pub struct PortProbes {
    open: Vec<u16>,
    busy: Vec<u16>,
}

impl PortProbes {
    /// Whether `port` was probed.
    pub closed spec fn known(&self, port: u16) -> bool {
        self.open@.contains(port) || self.busy@.contains(port)
    }

    /// Whether the probe found that `port` can be bound; meaningful for a
    /// port that was probed.
    pub closed spec fn bindable(&self, port: u16) -> bool {
        !self.busy@.contains(port)
    }

    /// Whether `scan` says of every port that was probed what the probe
    /// found.
    pub open spec fn agrees(&self, scan: &PortScan) -> bool {
        forall|port: u16| #[trigger] self.known(port) ==> scan.free(port) == self.bindable(port)
    }

    /// Nothing probed yet.
    pub fn new() -> (probes: Self)
        ensures
            forall|port: u16| !probes.known(port),
    {
        PortProbes { open: Vec::new(), busy: Vec::new() }
    }

    /// What the probe of `port` found, if the port was probed.
    pub fn verdict(&self, port: u16) -> (r: Option<bool>)
        ensures
            r == if self.known(port) {
                Some(self.bindable(port))
            } else {
                None
            },
    {
        if has_port(&self.busy, port) {
            Some(false)
        } else if has_port(&self.open, port) {
            Some(true)
        } else {
            None
        }
    }

    /// Takes note of what a probe of `port` found. What was noted of the
    /// port before stays; what is known of other ports stays.
    pub fn note(&mut self, port: u16, bindable: bool)
        ensures
            final(self).known(port),
            final(self).bindable(port) == if old(self).known(port) {
                old(self).bindable(port)
            } else {
                bindable
            },
            forall|other: u16|
                other != port ==> final(self).known(other) == old(self).known(other) && final(self).bindable(other) == old(self).bindable(other),
    {
        if has_port(&self.busy, port) || has_port(&self.open, port) {
            return ;
        }
        let ghost open = self.open@;
        let ghost busy = self.busy@;
        if bindable {
            self.open.push(port);
            assert(self.open@[open.len() as int] == port);
            assert forall|other: u16| other != port implies self.open@.contains(other) == open.contains(
                other,
            ) by {
                if self.open@.contains(other) {
                    let i = self.open@.index_of(other);
                    assert(open[i] == other);
                }
                if open.contains(other) {
                    let i = open.index_of(other);
                    assert(self.open@[i] == other);
                }
            }
        } else {
            self.busy.push(port);
            assert(self.busy@[busy.len() as int] == port);
            assert forall|other: u16| other != port implies self.busy@.contains(other) == busy.contains(
                other,
            ) by {
                if self.busy@.contains(other) {
                    let i = self.busy@.index_of(other);
                    assert(busy[i] == other);
                }
                if busy.contains(other) {
                    let i = busy.index_of(other);
                    assert(self.busy@[i] == other);
                }
            }
        }
    }

    /// The scan that says of every port that was probed what the probe
    /// found, and counts every other port as free.
    pub fn to_scan(&self) -> (scan: PortScan)
        ensures
            self.agrees(&scan),
            forall|port: u16| scan.free(port) == (!self.known(port) || self.bindable(port)),
    {
        let mut busy: Vec<u16> = Vec::new();
        let mut i: usize = 0;
        while i < self.busy.len()
            invariant
                i <= self.busy@.len(),
                busy@ == self.busy@.take(i as int),
            decreases self.busy@.len() - i,
        {
            busy.push(self.busy[i]);
            assert(busy@ =~= self.busy@.take(i + 1));
            i += 1;
        }
        assert(busy@ =~= self.busy@);
        PortScan::new(busy)
    }
}

fn has_port(ports: &Vec<u16>, port: u16) -> (b: bool)
    ensures
        b == ports@.contains(port),
{
    let mut i: usize = 0;
    while i < ports.len()
        invariant
            i <= ports@.len(),
            forall|j: int| 0 <= j < i ==> ports@[j] != port,
        decreases ports@.len() - i,
    {
        if ports[i] == port {
            return true;
        }
        i += 1;
    }
    false
}

/// Whether `entry` is what a project gets when `port` is handed to it at
/// the time `now`: not active, without process, never seen active.
pub open spec fn is_fresh(entry: PortEntry, project: Seq<char>, port: u16, now: u64) -> bool {
    &&& entry.port == port
    &&& entry.project@ == project
    &&& entry.pid is None
    &&& !entry.active
    &&& entry.allocated_at == now
    &&& entry.last_active is None
    &&& entry.description is None
}

/// Whether some entry among the first `n` holds `port`.
pub open spec fn port_held(values: Seq<PortEntry>, port: u16) -> bool {
    exists|i: int| 0 <= i < values.len() && (#[trigger] values[i]).port == port
}

/// The index of the entry that holds `port`, meaningful when one does.
pub open spec fn port_slot(values: Seq<PortEntry>, port: u16) -> int {
    choose|i: int| 0 <= i < values.len() && (#[trigger] values[i]).port == port
}

/// The map from each held port to the project that holds it.
pub open spec fn inversion(keys: Seq<Seq<char>>, values: Seq<PortEntry>) -> Map<u16, Seq<char>> {
    Map::new(|port: u16| port_held(values, port), |port: u16| keys[port_slot(values, port)])
}

/// Whether each entry stands under its own project and no two entries
/// hold the same port.
pub open spec fn entries_sound(keys: Seq<Seq<char>>, values: Seq<PortEntry>) -> bool {
    &&& keys.len() == values.len()
    &&& keys.no_duplicates()
    &&& forall|i: int| 0 <= i < values.len() ==> (#[trigger] values[i]).project@ == keys[i]
    &&& forall|i: int, j: int|
        0 <= i < j < values.len() ==> (#[trigger] values[i]).port != (#[trigger] values[j]).port
}

/// The inverted index of sound entries with one more entry, on a port
/// that none held, has one more pair.
pub proof fn lemma_inversion_push(
    keys: Seq<Seq<char>>,
    values: Seq<PortEntry>,
    key: Seq<char>,
    entry: PortEntry,
)
    requires
        entries_sound(keys, values),
        !port_held(values, entry.port),
    ensures
        inversion(keys.push(key), values.push(entry)) == inversion(keys, values).insert(entry.port, key),
{
    let keys2 = keys.push(key);
    let values2 = values.push(entry);
    let n = values.len() as int;
    assert(values2[n].port == entry.port);
    assert forall|port: u16| port_held(values2, port) <==> (port_held(values, port) || port
        == entry.port) by {
        if port_held(values2, port) {
            let i = port_slot(values2, port);
            if i < n {
                assert(values[i].port == port);
            }
        }
        if port_held(values, port) {
            let i = port_slot(values, port);
            assert(values2[i].port == port);
        }
    }
    assert forall|port: u16| port_held(values2, port) implies #[trigger] inversion(keys2, values2)[port]
        == inversion(keys, values).insert(entry.port, key)[port] by {
        let i2 = port_slot(values2, port);
        if port == entry.port {
            if i2 < n {
                assert(values[i2].port == port);
            }
        } else {
            assert(values[i2].port == port);
            let i = port_slot(values, port);
            if i != i2 {
                if i < i2 {
                    assert(values[i].port != values[i2].port);
                } else {
                    assert(values[i2].port != values[i].port);
                }
            }
        }
    }
    assert(inversion(keys2, values2) =~= inversion(keys, values).insert(entry.port, key));
}

/// The inverted index of sound entries without one entry has one pair
/// less, and the entries that stay are sound.
pub proof fn lemma_inversion_remove(keys: Seq<Seq<char>>, values: Seq<PortEntry>, at: int)
    requires
        entries_sound(keys, values),
        0 <= at < values.len(),
    ensures
        entries_sound(keys.remove(at), values.remove(at)),
        !port_held(values.remove(at), values[at].port),
        inversion(keys.remove(at), values.remove(at)) == inversion(keys, values).remove(values[at].port),
{
    let keys2 = keys.remove(at);
    let values2 = values.remove(at);
    let gone = values[at].port;
    assert forall|i: int| 0 <= i < values2.len() implies #[trigger] values2[i] == values[if i < at {
        i
    } else {
        i + 1
    }] && keys2[i] == keys[if i < at { i } else { i + 1 }] by {}
    assert forall|i: int, j: int| 0 <= i < j < values2.len() implies (#[trigger] values2[i]).port != (
    #[trigger] values2[j]).port by {
        let a = if i < at { i } else { i + 1 };
        let b = if j < at { j } else { j + 1 };
        assert(values[a].port != values[b].port);
    }
    assert forall|i: int, j: int| 0 <= i < keys2.len() && 0 <= j < keys2.len() && i != j implies keys2[i]
        != keys2[j] by {
        let a = if i < at { i } else { i + 1 };
        let b = if j < at { j } else { j + 1 };
        assert(keys[a] != keys[b]);
    }
    assert forall|i: int| 0 <= i < values2.len() implies (#[trigger] values2[i]).port != gone by {
        let a = if i < at { i } else { i + 1 };
        if a < at {
            assert(values[a].port != values[at].port);
        } else {
            assert(values[at].port != values[a].port);
        }
    }
    assert forall|port: u16| port_held(values2, port) <==> (port_held(values, port) && port != gone) by {
        if port_held(values2, port) {
            let i = port_slot(values2, port);
            let a = if i < at { i } else { i + 1 };
            assert(values[a].port == port);
        }
        if port_held(values, port) && port != gone {
            let a = port_slot(values, port);
            let i = if a < at { a } else { a - 1 };
            assert(values2[i].port == port);
        }
    }
    assert forall|port: u16| port_held(values2, port) implies #[trigger] inversion(keys2, values2)[port]
        == inversion(keys, values).remove(gone)[port] by {
        let i2 = port_slot(values2, port);
        let a2 = if i2 < at { i2 } else { i2 + 1 };
        assert(values[a2].port == port);
        let a = port_slot(values, port);
        if a != a2 {
            if a < a2 {
                assert(values[a].port != values[a2].port);
            } else {
                assert(values[a2].port != values[a].port);
            }
        }
    }
    assert(inversion(keys2, values2) =~= inversion(keys, values).remove(gone));
}

/// Entries that differ from sound ones in neither project nor port are
/// sound, with the same inverted index.
pub proof fn lemma_inversion_same_ports(keys: Seq<Seq<char>>, values: Seq<PortEntry>, changed: Seq<PortEntry>)
    requires
        entries_sound(keys, values),
        changed.len() == values.len(),
        forall|i: int|
            0 <= i < values.len() ==> (#[trigger] changed[i]).port == values[i].port && changed[i].project@
                == values[i].project@,
    ensures
        entries_sound(keys, changed),
        inversion(keys, changed) == inversion(keys, values),
{
    assert forall|i: int, j: int| 0 <= i < j < changed.len() implies (#[trigger] changed[i]).port != (
    #[trigger] changed[j]).port by {
        assert(values[i].port != values[j].port);
    }
    assert forall|port: u16| port_held(changed, port) <==> port_held(values, port) by {
        if port_held(changed, port) {
            let i = port_slot(changed, port);
            assert(values[i].port == port);
        }
        if port_held(values, port) {
            let i = port_slot(values, port);
            assert(changed[i].port == port);
        }
    }
    assert forall|port: u16| port_held(changed, port) implies #[trigger] inversion(keys, changed)[port]
        == inversion(keys, values)[port] by {
        let a = port_slot(changed, port);
        let b = port_slot(values, port);
        assert(values[a].port == port);
        if a != b {
            if a < b {
                assert(values[a].port != values[b].port);
            } else {
                assert(values[b].port != values[a].port);
            }
        }
    }
    assert(inversion(keys, changed) =~= inversion(keys, values));
}

/// Whether `entry` is one of the entries that `list` refers to.
pub open spec fn listed(list: Seq<&PortEntry>, entry: PortEntry) -> bool {
    exists|i: int| 0 <= i < list.len() && *#[trigger] list[i] == entry
}

/// Whether an entry is stale: not marked active, on a port that
/// something else has bound.
pub open spec fn is_stale(entry: PortEntry, scan: &PortScan) -> bool {
    !entry.active && !scan.free(entry.port)
}

/// The entry as it stands once its process was looked for among the
/// processes that run: without process and not active where the process
/// it names does not run, as it was otherwise.
pub open spec fn refreshed(entry: PortEntry, running: Seq<u32>) -> PortEntry {
    match entry.pid {
        Some(pid) if !running.contains(pid) => PortEntry { active: false, pid: None, ..entry },
        _ => entry,
    }
}

/// The registry of ports.
pub struct PortRegistry {
    allocations: StrMap<PortEntry>,
    port_map: HashMap<u16, String>,
    unsaved: bool,
}

impl PortRegistry {
    /// The entries, keyed by project.
    pub closed spec fn entries(&self) -> StrMap<PortEntry> {
        self.allocations
    }

    /// The index from port to project.
    pub closed spec fn index(&self) -> Map<u16, Seq<char>> {
        Map::new(|port: u16| self.port_map@.contains_key(port), |port: u16| self.port_map@[port]@)
    }

    /// Whether the registry was changed since it was last written out.
    pub closed spec fn unsaved(&self) -> bool {
        self.unsaved
    }

    /// Each project has one entry, which names it; no two projects hold
    /// the same port; and the index holds each held port with the project
    /// that holds it, and nothing else.
    pub open spec fn wf(&self) -> bool {
        &&& entries_sound(self.entries().keys(), self.entries().values())
        &&& self.index() == inversion(self.entries().keys(), self.entries().values())
    }

    /// Whether some project holds `port`.
    pub open spec fn holds(&self, port: u16) -> bool {
        port_held(self.entries().values(), port)
    }

    /// Whether `project` can go on with the port it has: it has one, and
    /// the port is free on the machine or marked as the project's own.
    pub open spec fn keeps(&self, project: Seq<char>, scan: &PortScan) -> bool {
        self.entries().has(project) && (scan.free(self.entries().at(project).port)
            || self.entries().at(project).active)
    }

    /// Whether `port` can be handed out: free on the machine and held by
    /// no project.
    pub open spec fn takeable(&self, scan: &PortScan, port: u16) -> bool {
        scan.free(port) && !self.holds(port)
    }

    /// The first port from `from` up to the end of the range that can be
    /// handed out.
    pub open spec fn first_takeable(&self, scan: &PortScan, from: int) -> Option<u16>
        decreases PORT_RANGE_END + 1 - from,
    {
        if from < PORT_RANGE_START || from > PORT_RANGE_END {
            None
        } else if self.takeable(scan, from as u16) {
            Some(from as u16)
        } else {
            self.first_takeable(scan, from + 1)
        }
    }

    /// The port that `project` gets when it needs a new one: the one
    /// asked for if that can be handed out, else the first of the range
    /// that can.
    pub open spec fn choice(&self, preferred: Option<u16>, scan: &PortScan) -> Option<u16> {
        match preferred {
            Some(port) if self.takeable(scan, port) => Some(port),
            _ => self.first_takeable(scan, PORT_RANGE_START as int),
        }
    }

    /// Whether `post` is `pre` after `port` was handed to `project` at the
    /// time `now`: an older entry of the project is gone, the new one
    /// stands at the end.
    pub open spec fn allocated(
        pre: &PortRegistry,
        post: &PortRegistry,
        project: Seq<char>,
        port: u16,
        now: u64,
    ) -> bool {
        let keys = if pre.entries().has(project) {
            pre.entries().keys().remove(pre.entries().slot(project))
        } else {
            pre.entries().keys()
        };
        let values = if pre.entries().has(project) {
            pre.entries().values().remove(pre.entries().slot(project))
        } else {
            pre.entries().values()
        };
        &&& post.entries().keys() == keys.push(project)
        &&& post.entries().values().len() == values.len() + 1
        &&& post.entries().values().drop_last() == values
        &&& is_fresh(post.entries().values().last(), project, port, now)
        &&& post.unsaved()
    }

    /// A registry without entries.
    pub fn new() -> (r: Self)
        ensures
            r.wf(),
            r.entries().keys().len() == 0,
            !r.unsaved(),
    {
        let r = PortRegistry { allocations: StrMap::new(), port_map: HashMap::new(), unsaved: false };
        assert(r.index() =~= inversion(r.entries().keys(), r.entries().values()));
        r
    }

    /// The registry that holds `entries`, each under the project it
    /// names, as after reading them from a file. Refused where two
    /// entries name the same project or hold the same port.
    pub fn from_entries(entries: Vec<PortEntry>) -> (r: Option<Self>)
        ensures
            match r {
                Some(reg) => {
                    &&& reg.wf()
                    &&& !reg.unsaved()
                    &&& reg.entries().values() == entries@
                },
                None => exists|i: int, j: int|
                    #![trigger entries@[i], entries@[j]]
                    0 <= i < j < entries@.len() && (entries@[i].project@ == entries@[j].project@
                        || entries@[i].port == entries@[j].port),
            },
    {
        let mut reg = PortRegistry::new();
        let ghost all = entries@;
        assert(all.len() == entries.len());
        let mut rest = entries;
        let mut taken: Vec<PortEntry> = Vec::new();
        // entries are moved over from the back, so collect them in reverse
        while rest.len() > 0
            invariant
                all.len() <= usize::MAX,
                rest@.len() + taken@.len() == all.len(),
                forall|i: int| 0 <= i < rest@.len() ==> rest@[i] == all[i],
                forall|i: int| 0 <= i < taken@.len() ==> taken@[i] == all[all.len() - 1 - i],
            decreases rest@.len(),
        {
            let e = rest.pop().unwrap();
            taken.push(e);
        }
        let mut k: usize = 0;
        while taken.len() > 0
            invariant
                reg.wf(),
                !reg.unsaved(),
                all == entries@,
                all.len() <= usize::MAX,
                k + taken@.len() == all.len(),
                reg.entries().values() == all.take(k as int),
                forall|i: int| 0 <= i < taken@.len() ==> taken@[i] == all[all.len() - 1 - i],
            decreases taken@.len(),
        {
            let e = taken.pop().unwrap();
            assert(e == all[k as int]);
            let ghost keys = reg.entries().keys();
            let ghost values = reg.entries().values();
            let name = e.project.clone();
            if reg.allocations.contains_key(name.as_str()) {
                proof {
                    let i = keys.index_of(name@);
                    assert(keys.contains(name@));
                    assert(values[i].project@ == keys[i]);
                    assert(all[i].project@ == all[k as int].project@);
                    assert(0 <= i < k < all.len() && (all[i].project@ == all[k as int].project@
                        || all[i].port == all[k as int].port));
                }
                return None;
            }
            if reg.port_map.contains_key(&e.port) {
                proof {
                    assert(reg.index().contains_key(e.port));
                    assert(port_held(values, e.port));
                    let i = port_slot(values, e.port);
                    assert(all[i].port == all[k as int].port);
                    assert(0 <= i < k < all.len() && (all[i].project@ == all[k as int].project@
                        || all[i].port == all[k as int].port));
                }
                return None;
            }
            proof {
                assert(reg.index().contains_key(e.port) == reg.port_map@.contains_key(e.port));
                lemma_inversion_push(keys, values, name@, e);
            }
            let ghost before = reg.index();
            reg.port_map.insert(e.port, name.clone());
            assert(reg.index() =~= before.insert(e.port, name@));
            reg.allocations.insert(name, e);
            proof {
                assert(reg.entries().values() =~= all.take(k + 1));
                assert(reg.entries().keys().drop_last() =~= keys);
                assert(reg.entries().values().drop_last() =~= values);
                reg.lemma_sound_after_push(keys, values);
            }
            k += 1;
        }
        assert(all.take(all.len() as int) =~= all);
        Some(reg)
    }

    proof fn lemma_sound_after_push(&self, keys: Seq<Seq<char>>, values: Seq<PortEntry>)
        requires
            entries_sound(keys, values),
            self.entries().wf(),
            self.entries().keys().len() == keys.len() + 1,
            self.entries().keys().drop_last() == keys,
            self.entries().values().len() == values.len() + 1,
            self.entries().values().drop_last() == values,
            self.entries().values().last().project@ == self.entries().keys().last(),
            !port_held(values, self.entries().values().last().port),
        ensures
            entries_sound(self.entries().keys(), self.entries().values()),
    {
        let k2 = self.entries().keys();
        let v2 = self.entries().values();
        assert forall|i: int| 0 <= i < v2.len() implies (#[trigger] v2[i]).project@ == k2[i] by {
            if i < values.len() {
                assert(v2[i] == values[i]);
                assert(k2[i] == keys[i]);
            }
        }
        assert forall|i: int, j: int| 0 <= i < j < v2.len() implies (#[trigger] v2[i]).port != (
        #[trigger] v2[j]).port by {
            assert(v2[i] == values[i]);
            if j < values.len() {
                assert(v2[j] == values[j]);
            }
        }
    }

    /// Whether the registry has to be written out.
    pub fn needs_save(&self) -> (b: bool)
        ensures
            b == self.unsaved(),
    {
        self.unsaved
    }

    /// Records that the registry was written out.
    pub fn mark_saved(&mut self)
        ensures
            final(self).entries() == old(self).entries(),
            final(self).index() == old(self).index(),
            !final(self).unsaved(),
    {
        self.unsaved = false;
    }

    /// The entries, keyed by project, in the order in which they were
    /// made.
    pub fn allocations(&self) -> (entries: &StrMap<PortEntry>)
        ensures
            *entries == self.entries(),
    {
        &self.allocations
    }

    /// Makes the index anew from the entries.
    pub fn rebuild_port_map(&mut self)
        requires
            entries_sound(old(self).entries().keys(), old(self).entries().values()),
            old(self).entries().wf(),
        ensures
            final(self).wf(),
            final(self).entries() == old(self).entries(),
            final(self).unsaved() == old(self).unsaved(),
    {
        self.port_map.clear();
        let n = self.allocations.len();
        let ghost keys = self.entries().keys();
        let ghost values = self.entries().values();
        let mut i: usize = 0;
        assert(self.index() =~= inversion(keys.take(0), values.take(0)));
        while i < n
            invariant
                i <= n,
                n == keys.len(),
                self.entries() == old(self).entries(),
                self.unsaved() == old(self).unsaved(),
                self.entries().wf(),
                keys == self.entries().keys(),
                values == self.entries().values(),
                entries_sound(keys, values),
                self.index() == inversion(keys.take(i as int), values.take(i as int)),
            decreases n - i,
        {
            let entry = self.allocations.value_at(i);
            let project = self.allocations.key_at(i).clone();
            proof {
                let ks = keys.take(i as int);
                let vs = values.take(i as int);
                assert forall|a: int, b: int| 0 <= a < ks.len() && 0 <= b < ks.len() && a != b implies ks[a]
                    != ks[b] by {
                    assert(keys[a] != keys[b]);
                }
                assert(entries_sound(ks, vs));
                if port_held(vs, entry.port) {
                    let j = port_slot(vs, entry.port);
                    assert(values[j].port != values[i as int].port);
                }
                lemma_inversion_push(ks, vs, project@, *entry);
                assert(keys.take(i + 1) =~= ks.push(keys[i as int]));
                assert(values.take(i + 1) =~= vs.push(values[i as int]));
            }
            let ghost before = self.index();
            self.port_map.insert(entry.port, project);
            assert(self.index() =~= before.insert(entry.port, project@));
            i += 1;
        }
        assert(keys.take(n as int) =~= keys);
        assert(values.take(n as int) =~= values);
    }

    /// The next port of the range, from `from` on, that has to be probed
    /// before a port of the range can be chosen: the first port that no
    /// project holds and that was not probed, unless a port before it was
    /// found free. None where nothing more has to be found out.
    pub open spec fn wanted_in_range(&self, probes: &PortProbes, from: int) -> Option<u16>
        decreases PORT_RANGE_END + 1 - from,
    {
        if from < PORT_RANGE_START || from > PORT_RANGE_END {
            None
        } else if self.holds(from as u16) {
            self.wanted_in_range(probes, from + 1)
        } else if !probes.known(from as u16) {
            Some(from as u16)
        } else if probes.bindable(from as u16) {
            None
        } else {
            self.wanted_in_range(probes, from + 1)
        }
    }

    /// The next port that has to be probed before the port of `project`
    /// can be decided on; none where the probes suffice. First the port
    /// that the project has, unless it is marked active; then, where the
    /// project cannot go on with its port, the port asked for, unless a
    /// project holds it; then the ports of the range that no project
    /// holds, in order, up to the first that is free.
    pub open spec fn wanted(&self, project: Seq<char>, preferred: Option<u16>, probes: &PortProbes) -> Option<
        u16,
    > {
        if self.entries().has(project) && !self.entries().at(project).active && !probes.known(
            self.entries().at(project).port,
        ) {
            Some(self.entries().at(project).port)
        } else if self.entries().has(project) && (self.entries().at(project).active || probes.bindable(
            self.entries().at(project).port,
        )) {
            None
        } else {
            match preferred {
                Some(port) if !self.holds(port) && !probes.known(port) => Some(port),
                Some(port) if !self.holds(port) && probes.bindable(port) => None,
                _ => self.wanted_in_range(probes, PORT_RANGE_START as int),
            }
        }
    }

    /// The next port that has to be probed before the port of `project`
    /// can be decided on; none where the probes suffice.
    pub fn next_probe(&self, project: &str, preferred: Option<u16>, probes: &PortProbes) -> (r: Option<u16>)
        requires
            self.wf(),
        ensures
            r == self.wanted(project@, preferred, probes),
            r matches Some(port) ==> !probes.known(port),
    {
        match self.allocations.get(project) {
            Some(entry) => {
                if entry.active {
                    return None;
                }
                match probes.verdict(entry.port) {
                    None => {
                        return Some(entry.port);
                    },
                    Some(true) => {
                        return None;
                    },
                    Some(false) => {},
                }
            },
            None => {},
        }
        match preferred {
            Some(port) => {
                let held = self.port_map.contains_key(&port);
                assert(held == self.holds(port)) by {
                    assert(self.index().contains_key(port) == self.port_map@.contains_key(port));
                }
                if !held {
                    match probes.verdict(port) {
                        None => {
                            return Some(port);
                        },
                        Some(true) => {
                            return None;
                        },
                        Some(false) => {},
                    }
                }
            },
            None => {},
        }
        let mut port: u16 = PORT_RANGE_START;
        while port <= PORT_RANGE_END
            invariant
                self.wf(),
                PORT_RANGE_START <= port <= PORT_RANGE_END + 1,
                self.wanted(project@, preferred, probes) == self.wanted_in_range(
                    probes,
                    port as int,
                ),
            decreases PORT_RANGE_END + 1 - port,
        {
            let held = self.port_map.contains_key(&port);
            assert(held == self.holds(port)) by {
                assert(self.index().contains_key(port) == self.port_map@.contains_key(port));
            }
            if !held {
                match probes.verdict(port) {
                    None => {
                        return Some(port);
                    },
                    Some(true) => {
                        return None;
                    },
                    Some(false) => {},
                }
            }
            port += 1;
        }
        None
    }

    /// Once no port of the range has to be probed any more, every scan
    /// that agrees with the probes finds the same first port to hand out.
    pub proof fn lemma_range_settled(&self, probes: &PortProbes, one: &PortScan, other: &PortScan, from: int)
        requires
            self.wanted_in_range(probes, from) is None,
            probes.agrees(one),
            probes.agrees(other),
        ensures
            self.first_takeable(one, from) == self.first_takeable(other, from),
        decreases PORT_RANGE_END + 1 - from,
    {
        if PORT_RANGE_START <= from <= PORT_RANGE_END {
            let port = from as u16;
            if self.holds(port) {
                self.lemma_range_settled(probes, one, other, from + 1);
            } else {
                assert(probes.known(port));
                if !probes.bindable(port) {
                    self.lemma_range_settled(probes, one, other, from + 1);
                }
            }
        }
    }

    /// Once nothing has to be probed any more, the probes decide: every
    /// scan that agrees with them gives the same answer to whether the
    /// project goes on with its port and, where it does not, to which
    /// port it is handed. What the ports that were not probed would have
    /// shown does not matter.
    pub proof fn lemma_probes_suffice(
        &self,
        project: Seq<char>,
        preferred: Option<u16>,
        probes: &PortProbes,
        one: &PortScan,
        other: &PortScan,
    )
        requires
            self.wanted(project, preferred, probes) is None,
            probes.agrees(one),
            probes.agrees(other),
        ensures
            self.keeps(project, one) == self.keeps(project, other),
            !self.keeps(project, one) ==> self.choice(preferred, one) == self.choice(preferred, other),
    {
        if self.entries().has(project) && !self.entries().at(project).active {
            assert(probes.known(self.entries().at(project).port));
        }
        if !self.keeps(project, one) {
            match preferred {
                Some(port) => {
                    if self.holds(port) {
                        self.lemma_range_settled(probes, one, other, PORT_RANGE_START as int);
                    } else {
                        assert(probes.known(port));
                        if !probes.bindable(port) {
                            self.lemma_range_settled(probes, one, other, PORT_RANGE_START as int);
                        }
                    }
                },
                None => {
                    self.lemma_range_settled(probes, one, other, PORT_RANGE_START as int);
                },
            }
        }
    }

    /// The first port of the range, from `from` on, that can be handed out.
    fn find_available_port(&self, scan: &PortScan) -> (r: Result<u16, PortError>)
        requires
            self.wf(),
        ensures
            match r {
                Ok(port) => self.first_takeable(scan, PORT_RANGE_START as int) == Some(port),
                Err(e) => self.first_takeable(scan, PORT_RANGE_START as int) is None,
            },
            r matches Ok(port) ==> PORT_RANGE_START <= port <= PORT_RANGE_END && self.takeable(scan, port),
    {
        let mut port: u16 = PORT_RANGE_START;
        while port <= PORT_RANGE_END
            invariant
                self.wf(),
                PORT_RANGE_START <= port <= PORT_RANGE_END + 1,
                self.first_takeable(scan, PORT_RANGE_START as int) == self.first_takeable(
                    scan,
                    port as int,
                ),
            decreases PORT_RANGE_END + 1 - port,
        {
            let held = self.port_map.contains_key(&port);
            assert(held == self.holds(port)) by {
                assert(self.index().contains_key(port) == self.port_map@.contains_key(port));
            }
            if !held && scan.is_free(port) {
                return Ok(port);
            }
            port += 1;
        }
        Err(PortError::Exhausted)
    }

    /// Hands `port` to `project` at the time `now`, in place of the port
    /// that the project had.
    fn allocate(&mut self, project: &str, port: u16, now: u64)
        requires
            old(self).wf(),
            !old(self).holds(port),
        ensures
            final(self).wf(),
            PortRegistry::allocated(old(self), final(self), project@, port, now),
    {
        let entry = PortEntry {
            port,
            project: owned(project),
            pid: None,
            active: false,
            allocated_at: now,
            last_active: None,
            description: None,
        };
        let ghost keys0 = self.entries().keys();
        let ghost values0 = self.entries().values();
        match self.allocations.position(project) {
            Some(i) => {
                proof {
                    self.allocations.lemma_slot(project@, i as int);
                    lemma_inversion_remove(keys0, values0, i as int);
                }
                let (_, former) = self.allocations.remove_at(i);
                let ghost before = self.index();
                self.port_map.remove(&former.port);
                assert(self.index() =~= before.remove(former.port));
                proof {
                    let values1 = self.entries().values();
                    if port_held(values1, port) {
                        let j = port_slot(values1, port);
                        let a = if j < i { j } else { j + 1 };
                        assert(values0[a].port == port);
                    }
                }
            },
            None => {},
        }
        let ghost keys1 = self.entries().keys();
        let ghost values1 = self.entries().values();
        proof {
            lemma_inversion_push(keys1, values1, project@, entry);
        }
        let ghost before = self.index();
        self.port_map.insert(port, owned(project));
        assert(self.index() =~= before.insert(port, project@));
        self.allocations.insert(owned(project), entry);
        self.unsaved = true;
        proof {
            assert(self.entries().values().drop_last() =~= values1);
            assert(self.entries().keys().drop_last() =~= keys1);
            self.lemma_sound_after_push(keys1, values1);
        }
    }

    /// The port of `project`. A project that can go on with the port it
    /// has gets that port, and nothing changes. Otherwise it is handed
    /// the port asked for, if that is free and held by nobody, or else
    /// the first port from 3000 to 3999 that is. Where there is none the
    /// call fails and nothing changes.
    pub fn get_or_allocate(
        &mut self,
        project: &str,
        preferred: Option<u16>,
        scan: &PortScan,
        now: u64,
    ) -> (r: Result<u16, PortError>)
        requires
            old(self).wf(),
        ensures
            final(self).wf(),
            match r {
                Ok(port) => if old(self).keeps(project@, scan) {
                    &&& port == old(self).entries().at(project@).port
                    &&& *final(self) == *old(self)
                } else {
                    &&& old(self).choice(preferred, scan) == Some(port)
                    &&& PortRegistry::allocated(old(self), final(self), project@, port, now)
                },
                Err(e) => {
                    &&& !old(self).keeps(project@, scan)
                    &&& old(self).choice(preferred, scan) is None
                    &&& *final(self) == *old(self)
                },
            },
    {
        match self.allocations.get(project) {
            Some(entry) => {
                if scan.is_free(entry.port) || entry.active {
                    return Ok(entry.port);
                }
            },
            None => {},
        }
        match preferred {
            Some(port) => {
                let held = self.port_map.contains_key(&port);
                assert(held == self.holds(port)) by {
                    assert(self.index().contains_key(port) == self.port_map@.contains_key(port));
                }
                if scan.is_free(port) && !held {
                    self.allocate(project, port, now);
                    return Ok(port);
                }
            },
            None => {},
        }
        match self.find_available_port(scan) {
            Ok(port) => {
                self.allocate(project, port, now);
                Ok(port)
            },
            Err(e) => Err(e),
        }
    }
    /// In a sound registry no two projects hold the same port, and the
    /// index is the inversion of the entries: a port leads to a project
    /// exactly when that project's entry holds the port.
    pub proof fn lemma_ports_distinct(&self)
        requires
            self.wf(),
        ensures
            forall|a: Seq<char>, b: Seq<char>|
                self.entries().has(a) && self.entries().has(b) && a != b ==> self.entries().at(a).port
                    != self.entries().at(b).port,
            forall|port: u16, project: Seq<char>|
                (self.index().contains_key(port) && self.index()[port] == project) <==> (
                self.entries().has(project) && self.entries().at(project).port == port),
    {
        let keys = self.entries().keys();
        let values = self.entries().values();
        assert forall|a: Seq<char>, b: Seq<char>|
            self.entries().has(a) && self.entries().has(b) && a != b implies self.entries().at(a).port
            != self.entries().at(b).port by {
            let i = keys.index_of(a);
            let j = keys.index_of(b);
            assert(keys.contains(a) && keys.contains(b));
            if i < j {
                assert(values[i].port != values[j].port);
            } else {
                assert(values[j].port != values[i].port);
            }
        }
        assert forall|port: u16, project: Seq<char>|
            (self.index().contains_key(port) && self.index()[port] == project) <==> (
            self.entries().has(project) && self.entries().at(project).port == port) by {
            if self.index().contains_key(port) && self.index()[port] == project {
                let i = port_slot(values, port);
                self.entries().lemma_slot(project, i);
            }
            if self.entries().has(project) && self.entries().at(project).port == port {
                let i = keys.index_of(project);
                assert(keys.contains(project));
                assert(values[i].port == port);
                let j = port_slot(values, port);
                if i < j {
                    assert(values[i].port != values[j].port);
                } else if j < i {
                    assert(values[j].port != values[i].port);
                }
            }
        }
    }

    /// Puts `entry` in the place of the entry at index `i`, which holds
    /// the same port for the same project.
    fn replace_entry(&mut self, i: usize, key: String, entry: PortEntry, Ghost(before): Ghost<PortRegistry>)
        requires
            before.wf(),
            0 <= i < before.entries().keys().len(),
            old(self).entries().wf(),
            old(self).entries().keys() == before.entries().keys().remove(i as int),
            old(self).entries().values() == before.entries().values().remove(i as int),
            old(self).index() == before.index(),
            key@ == before.entries().keys()[i as int],
            entry.port == before.entries().values()[i as int].port,
            entry.project@ == before.entries().values()[i as int].project@,
        ensures
            final(self).wf(),
            final(self).entries().keys() == before.entries().keys(),
            final(self).entries().values() == before.entries().values().update(i as int, entry),
            final(self).unsaved(),
    {
        proof {
            let keys = before.entries().keys();
            if self.entries().has(key@) {
                let j = self.entries().keys().index_of(key@);
                let a = if j < i { j } else { j + 1 };
                assert(keys[a] == keys[i as int]);
            }
        }
        self.allocations.insert_at(i, key, entry);
        self.unsaved = true;
        proof {
            let keys = before.entries().keys();
            let values = before.entries().values();
            assert(self.entries().keys() =~= keys);
            assert(self.entries().values() =~= values.update(i as int, entry));
            lemma_inversion_same_ports(keys, values, values.update(i as int, entry));
        }
    }

    /// Marks the port of `project` as in use, by the process `pid` if one
    /// is given, and notes `now` as the time it was last seen so. A
    /// project without a port is left alone.
    pub fn mark_active(&mut self, project: &str, pid: Option<u32>, now: u64)
        requires
            old(self).wf(),
        ensures
            final(self).wf(),
            final(self).entries().keys() == old(self).entries().keys(),
            if old(self).entries().has(project@) {
                &&& final(self).entries().values() == old(self).entries().values().update(
                    old(self).entries().slot(project@),
                    PortEntry {
                        active: true,
                        pid,
                        last_active: Some(now),
                        ..old(self).entries().at(project@)
                    },
                )
                &&& final(self).unsaved()
            } else {
                *final(self) == *old(self)
            },
    {
        match self.allocations.position(project) {
            Some(i) => {
                proof {
                    self.allocations.lemma_slot(project@, i as int);
                }
                let ghost before = *self;
                let (key, mut entry) = self.allocations.remove_at(i);
                entry.active = true;
                entry.pid = pid;
                entry.last_active = Some(now);
                self.replace_entry(i, key, entry, Ghost(before));
            },
            None => {},
        }
    }

    /// Marks the port of `project` as not in use: the entry loses its
    /// process and the time it was last seen active. A project without a
    /// port is left alone.
    pub fn mark_inactive(&mut self, project: &str)
        requires
            old(self).wf(),
        ensures
            final(self).wf(),
            final(self).entries().keys() == old(self).entries().keys(),
            if old(self).entries().has(project@) {
                &&& final(self).entries().values() == old(self).entries().values().update(
                    old(self).entries().slot(project@),
                    PortEntry {
                        active: false,
                        pid: None,
                        last_active: None,
                        ..old(self).entries().at(project@)
                    },
                )
                &&& final(self).unsaved()
            } else {
                *final(self) == *old(self)
            },
    {
        match self.allocations.position(project) {
            Some(i) => {
                proof {
                    self.allocations.lemma_slot(project@, i as int);
                }
                let ghost before = *self;
                let (key, mut entry) = self.allocations.remove_at(i);
                entry.active = false;
                entry.pid = None;
                entry.last_active = None;
                self.replace_entry(i, key, entry, Ghost(before));
            },
            None => {},
        }
    }

    /// Gives up the port of `project`. A project without a port is left
    /// alone.
    pub fn release(&mut self, project: &str)
        requires
            old(self).wf(),
        ensures
            final(self).wf(),
            !final(self).entries().has(project@),
            if old(self).entries().has(project@) {
                &&& final(self).entries().keys() == old(self).entries().keys().remove(
                    old(self).entries().slot(project@),
                )
                &&& final(self).entries().values() == old(self).entries().values().remove(
                    old(self).entries().slot(project@),
                )
                &&& !final(self).holds(old(self).entries().at(project@).port)
                &&& final(self).unsaved()
            } else {
                *final(self) == *old(self)
            },
    {
        match self.allocations.position(project) {
            Some(i) => {
                proof {
                    self.allocations.lemma_slot(project@, i as int);
                    lemma_inversion_remove(self.entries().keys(), self.entries().values(), i as int);
                }
                let (_, former) = self.allocations.remove_at(i);
                let ghost before = self.index();
                self.port_map.remove(&former.port);
                assert(self.index() =~= before.remove(former.port));
                self.unsaved = true;
            },
            None => {},
        }
    }

    /// How the port of `project` stands: available where the project
    /// holds none, active where the entry is marked so, reserved where the
    /// port is free on the machine, externally used otherwise.
    pub fn get_status(&self, project: &str, scan: &PortScan) -> (status: PortStatus)
        requires
            self.wf(),
        ensures
            status == if !self.entries().has(project@) {
                PortStatus::Available
            } else if self.entries().at(project@).active {
                PortStatus::Active
            } else if scan.free(self.entries().at(project@).port) {
                PortStatus::Reserved
            } else {
                PortStatus::ExternallyUsed
            },
    {
        match self.allocations.get(project) {
            Some(entry) => {
                if entry.active {
                    PortStatus::Active
                } else if scan.is_free(entry.port) {
                    PortStatus::Reserved
                } else {
                    PortStatus::ExternallyUsed
                }
            },
            None => PortStatus::Available,
        }
    }

    /// All entries, by rising port.
    pub fn list_allocations(&self) -> (list: Vec<&PortEntry>)
        requires
            self.wf(),
        ensures
            list@.len() == self.entries().values().len(),
            forall|i: int, j: int| 0 <= i < j < list@.len() ==> (#[trigger] list@[i]).port < (#[trigger] list@[j]).port,
            forall|i: int| 0 <= i < list@.len() ==> self.entries().values().contains(*#[trigger] list@[i]),
            forall|k: int|
                0 <= k < self.entries().values().len() ==> listed(list@, #[trigger] self.entries().values()[k]),
    {
        let n = self.allocations.len();
        let ghost values = self.entries().values();
        let mut list: Vec<&PortEntry> = Vec::new();
        let mut floor: Option<u16> = None;
        // each round takes the entry with the lowest port above `floor`
        while list.len() < n
            invariant
                self.wf(),
                n == values.len(),
                values == self.entries().values(),
                list@.len() <= n,
                forall|i: int, j: int|
                    0 <= i < j < list@.len() ==> (#[trigger] list@[i]).port < (#[trigger] list@[j]).port,
                forall|i: int| 0 <= i < list@.len() ==> values.contains(*#[trigger] list@[i]),
                floor is None <==> list@.len() == 0,
                floor is Some ==> list@.last().port == floor->0,
                forall|k: int|
                    0 <= k < n && (floor matches Some(f) && (#[trigger] values[k]).port <= f) ==> listed(
                        list@,
                        values[k],
                    ),
                forall|i: int| 0 <= i < list@.len() ==> floor is Some && (#[trigger] list@[i]).port <= floor->0,
            decreases n - list@.len(),
        {
            let mut best: Option<usize> = None;
            let mut k: usize = 0;
            while k < n
                invariant
                    self.wf(),
                    n == values.len(),
                    values == self.entries().values(),
                    k <= n,
                    match best {
                        Some(b) => {
                            &&& b < k
                            &&& (floor matches Some(f) ==> values[b as int].port > f)
                            &&& forall|j: int|
                                0 <= j < k && (floor matches Some(f) ==> (#[trigger] values[j]).port > f)
                                    ==> values[b as int].port <= values[j].port
                        },
                        None => forall|j: int|
                            0 <= j < k ==> (floor matches Some(f) && (#[trigger] values[j]).port <= f),
                    },
                decreases n - k,
            {
                let port = self.allocations.value_at(k).port;
                let above = match floor {
                    Some(f) => port > f,
                    None => true,
                };
                if above {
                    let better = match best {
                        Some(b) => port < self.allocations.value_at(b).port,
                        None => true,
                    };
                    if better {
                        best = Some(k);
                    }
                }
                k += 1;
            }
            match best {
                Some(b) => {
                    let entry = self.allocations.value_at(b);
                    let ghost before = list@;
                    proof {
                        assert(values.contains(values[b as int]));
                        assert forall|i: int| 0 <= i < before.len() implies (#[trigger] before[i]).port
                            < entry.port by {}
                    }
                    list.push(entry);
                    floor = Some(entry.port);
                    proof {
                        assert forall|k: int|
                            0 <= k < n && (#[trigger] values[k]).port <= entry.port implies listed(
                            list@,
                            values[k],
                        ) by {
                            if values[k].port == entry.port {
                                if k < b {
                                    assert(values[k].port != values[b as int].port);
                                } else if b < k {
                                    assert(values[b as int].port != values[k].port);
                                }
                                assert(*list@[before.len() as int] == values[k]);
                            } else {
                                // below the new floor, so not above the old one
                                assert(listed(before, values[k]));
                                let i = choose|i: int| 0 <= i < before.len() && *#[trigger] before[i] == values[k];
                                assert(*list@[i] == values[k]);
                            }
                        }
                    }
                },
                None => {
                    proof {
                        // every entry is in the list already; the ports of
                        // the list are distinct, so it is as long as the
                        // table
                        self.lemma_list_full(list@, values);
                    }
                },
            }
        }
        proof {
            assert forall|k: int| 0 <= k < n implies listed(list@, #[trigger] values[k]) by {
                self.lemma_list_covers(list@, values, k);
            }
        }
        list
    }

    /// A list that holds every entry of the table is at least as long
    /// as the table.
    proof fn lemma_list_full(&self, list: Seq<&PortEntry>, values: Seq<PortEntry>)
        requires
            self.wf(),
            values == self.entries().values(),
            forall|k: int| 0 <= k < values.len() ==> listed(list, #[trigger] values[k]),
        ensures
            list.len() >= values.len(),
    {
        // the ports of the table are distinct and each is a port of the
        // list: more ports than the list has places
        let ports = values.map_values(|e: PortEntry| e.port as int);
        let shown = list.map_values(|e: &PortEntry| e.port as int);
        assert(ports.no_duplicates()) by {
            assert forall|i: int, j: int| 0 <= i < ports.len() && 0 <= j < ports.len() && i != j implies ports[i]
                != ports[j] by {
                if i < j {
                    assert(values[i].port != values[j].port);
                } else {
                    assert(values[j].port != values[i].port);
                }
            }
        }
        assert forall|p: int| ports.to_set().contains(p) implies shown.to_set().contains(p) by {
            let k = ports.index_of(p);
            assert(ports.contains(p));
            assert(listed(list, values[k]));
            let i = choose|i: int| 0 <= i < list.len() && *#[trigger] list[i] == values[k];
            assert(shown[i] == p);
        }
        ports.unique_seq_to_set();
        shown.lemma_cardinality_of_set();
        vstd::set_lib::lemma_len_subset(ports.to_set(), shown.to_set());
    }

    /// A list of distinct entries of the table that is as long as the
    /// table holds every entry of the table.
    proof fn lemma_list_covers(&self, list: Seq<&PortEntry>, values: Seq<PortEntry>, k: int)
        requires
            self.wf(),
            values == self.entries().values(),
            list.len() == values.len(),
            0 <= k < values.len(),
            forall|i: int, j: int| 0 <= i < j < list.len() ==> (#[trigger] list[i]).port < (#[trigger] list[j]).port,
            forall|i: int| 0 <= i < list.len() ==> values.contains(*#[trigger] list[i]),
        ensures
            listed(list, values[k]),
    {
        let ports = values.map_values(|e: PortEntry| e.port as int);
        let shown = list.map_values(|e: &PortEntry| e.port as int);
        assert(shown.no_duplicates()) by {
            assert forall|i: int, j: int| 0 <= i < shown.len() && 0 <= j < shown.len() && i != j implies shown[i]
                != shown[j] by {
                if i < j {
                    assert(list[i].port < list[j].port);
                } else {
                    assert(list[j].port < list[i].port);
                }
            }
        }
        assert(ports.no_duplicates()) by {
            assert forall|i: int, j: int| 0 <= i < ports.len() && 0 <= j < ports.len() && i != j implies ports[i]
                != ports[j] by {
                if i < j {
                    assert(values[i].port != values[j].port);
                } else {
                    assert(values[j].port != values[i].port);
                }
            }
        }
        assert forall|p: int| shown.to_set().contains(p) implies ports.to_set().contains(p) by {
            let i = shown.index_of(p);
            assert(shown.contains(p));
            assert(values.contains(*list[i]));
            let j = values.index_of(*list[i]);
            assert(ports[j] == p);
        }
        ports.unique_seq_to_set();
        shown.unique_seq_to_set();
        ports.lemma_cardinality_of_set();
        vstd::set_lib::lemma_subset_equality(shown.to_set(), ports.to_set());
        assert(ports.to_set().contains(ports[k]));
        assert(shown.to_set().contains(ports[k]));
        let i = shown.index_of(ports[k]);
        assert(shown.contains(ports[k]));
        assert(values.contains(*list[i]));
        let j = values.index_of(*list[i]);
        if j < k {
            assert(values[j].port != values[k].port);
        } else if k < j {
            assert(values[k].port != values[j].port);
        }
    }
    /// Drops every stale entry: one that is not marked active while
    /// something else has bound its port. Gives the number of entries
    /// dropped; the entries that stay keep their order.
    pub fn cleanup_stale(&mut self, scan: &PortScan) -> (count: usize)
        requires
            old(self).wf(),
        ensures
            final(self).wf(),
            final(self).entries().values() == old(self).entries().values().filter(
                |e: PortEntry| !is_stale(e, scan),
            ),
            count == old(self).entries().values().len() - final(self).entries().values().len(),
            final(self).unsaved() == (old(self).unsaved() || count > 0),
    {
        let ghost all = self.entries().values();
        let ghost keep = |e: PortEntry| !is_stale(e, scan);
        let total = self.allocations.len();
        let mut count: usize = 0;
        let mut i: usize = 0;
        assert(all.take(0) =~= Seq::empty());
        assert(all.take(0).filter(keep) =~= Seq::empty()) by {
            reveal(Seq::filter);
        }
        assert(self.entries().values() =~= all.take(0).filter(keep) + all.skip(0));
        while i < self.allocations.len()
            invariant
                self.wf(),
                keep == |e: PortEntry| !is_stale(e, scan),
                all == old(self).entries().values(),
                all.len() == total,
                i + count <= all.len(),
                i <= self.entries().values().len(),
                i == all.take(i + count).filter(keep).len(),
                self.entries().values() == all.take(i + count).filter(keep) + all.skip(i + count),
                self.unsaved() == (old(self).unsaved() || count > 0),
            decreases self.entries().values().len() - i,
        {
            let ghost done = (i + count) as int;
            let ghost kept = all.take(done).filter(keep);
            let entry = self.allocations.value_at(i);
            proof {
                assert(self.entries().values().len() == i + all.skip(done).len());
                assert(self.entries().values()[i as int] == all.skip(done)[0]);
                assert(all.take(done + 1) =~= all.take(done).push(all[done]));
                all.take(done).lemma_filter_push(all[done], keep);
            }
            if !entry.active && !scan.is_free(entry.port) {
                proof {
                    lemma_inversion_remove(self.entries().keys(), self.entries().values(), i as int);
                }
                let (_, former) = self.allocations.remove_at(i);
                let ghost before = self.index();
                self.port_map.remove(&former.port);
                assert(self.index() =~= before.remove(former.port));
                self.unsaved = true;
                count += 1;
                assert(self.entries().values() =~= kept + all.skip(done + 1));
            } else {
                assert(self.entries().values() =~= kept.push(all[done]) + all.skip(done + 1));
                i += 1;
            }
        }
        proof {
            let done = (i + count) as int;
            assert(self.entries().values().len() == i + all.skip(done).len());
            assert(all.take(done) =~= all);
            assert(all.skip(done) =~= Seq::empty());
            assert(self.entries().values() =~= all.filter(keep));
        }
        count
    }

    /// Looks for the process of each entry among `running`, the processes
    /// found alive: an entry whose process is not there loses it and is
    /// no longer active. The registry counts as changed in any case.
    pub fn refresh_status(&mut self, running: &Vec<u32>)
        requires
            old(self).wf(),
        ensures
            final(self).wf(),
            final(self).entries().keys() == old(self).entries().keys(),
            final(self).entries().values() == old(self).entries().values().map_values(
                |e: PortEntry| refreshed(e, running@),
            ),
            final(self).unsaved(),
    {
        let n = self.allocations.len();
        let ghost all = self.entries().values();
        let ghost fix = |e: PortEntry| refreshed(e, running@);
        let mut i: usize = 0;
        while i < n
            invariant
                self.wf(),
                i <= n,
                n == all.len(),
                all == old(self).entries().values(),
                fix == |e: PortEntry| refreshed(e, running@),
                self.entries().keys() == old(self).entries().keys(),
                self.entries().values().len() == n,
                forall|j: int| 0 <= j < i ==> #[trigger] self.entries().values()[j] == refreshed(all[j], running@),
                forall|j: int| i <= j < n ==> #[trigger] self.entries().values()[j] == all[j],
            decreases n - i,
        {
            let gone = match self.allocations.value_at(i).pid {
                Some(pid) => !has_pid(running, pid),
                None => false,
            };
            if gone {
                let ghost before = *self;
                let (key, mut entry) = self.allocations.remove_at(i);
                entry.active = false;
                entry.pid = None;
                self.replace_entry(i, key, entry, Ghost(before));
            }
            i += 1;
        }
        self.unsaved = true;
        assert(self.entries().values() =~= all.map_values(fix));
    }
}

fn has_pid(running: &Vec<u32>, pid: u32) -> (b: bool)
    ensures
        b == running@.contains(pid),
{
    let mut i: usize = 0;
    while i < running.len()
        invariant
            i <= running@.len(),
            forall|j: int| 0 <= j < i ==> running@[j] != pid,
        decreases running@.len() - i,
    {
        if running[i] == pid {
            return true;
        }
        i += 1;
    }
    false
}

/// The ports of the projects of one session, on top of the registry.
pub struct PortManager {
    registry: PortRegistry,
    project_ports: StrMap<u16>,
}

impl PortManager {
    /// The registry that the manager works on.
    pub closed spec fn registry_spec(&self) -> PortRegistry {
        self.registry
    }

    /// The ports handed out in the session, keyed by project.
    pub closed spec fn session_ports(&self) -> StrMap<u16> {
        self.project_ports
    }

    /// The registry is sound, and the ports of the session are a sound map.
    pub open spec fn wf(&self) -> bool {
        self.registry_spec().wf() && self.session_ports().wf()
    }

    /// A manager on `registry` that has handed out nothing yet.
    pub fn new(registry: PortRegistry) -> (m: Self)
        requires
            registry.wf(),
        ensures
            m.wf(),
            m.registry_spec() == registry,
            m.session_ports().keys().len() == 0,
    {
        PortManager { registry, project_ports: StrMap::new() }
    }

    /// The registry that the manager works on.
    pub fn registry(&self) -> (r: &PortRegistry)
        ensures
            *r == self.registry_spec(),
    {
        &self.registry
    }

    /// Records that the registry was written out.
    pub fn mark_saved(&mut self)
        ensures
            final(self).registry_spec().entries() == old(self).registry_spec().entries(),
            final(self).registry_spec().index() == old(self).registry_spec().index(),
            !final(self).registry_spec().unsaved(),
            final(self).session_ports() == old(self).session_ports(),
    {
        self.registry.mark_saved();
    }

    /// The port of `project`, from the registry, noted for the session
    /// under the project's name; what the session has noted for other
    /// projects stays. Where the registry has none to give, nothing is
    /// noted and nothing changes.
    pub fn allocate(&mut self, project: &str, preferred: Option<u16>, scan: &PortScan, now: u64) -> (r:
        Result<u16, PortError>)
        requires
            old(self).wf(),
        ensures
            final(self).wf(),
            match r {
                Ok(port) => {
                    &&& if old(self).registry_spec().keeps(project@, scan) {
                        &&& port == old(self).registry_spec().entries().at(project@).port
                        &&& final(self).registry_spec() == old(self).registry_spec()
                    } else {
                        &&& old(self).registry_spec().choice(preferred, scan) == Some(port)
                        &&& PortRegistry::allocated(
                            &old(self).registry_spec(),
                            &final(self).registry_spec(),
                            project@,
                            port,
                            now,
                        )
                    }
                    &&& final(self).session_ports().keys() == put_key(
                        old(self).session_ports().keys(),
                        project@,
                    )
                    &&& final(self).session_ports().values() == put_value(
                        old(self).session_ports().keys(),
                        old(self).session_ports().values(),
                        project@,
                        port,
                    )
                    &&& final(self).session_ports().has(project@)
                    &&& final(self).session_ports().at(project@) == port
                    &&& forall|other: Seq<char>|
                        other != project@ ==> final(self).session_ports().has(other) == old(self).session_ports().has(other)
                    &&& forall|other: Seq<char>|
                        #![trigger final(self).session_ports().at(other)]
                        other != project@ && old(self).session_ports().has(other) ==> final(self).session_ports().at(other) == old(self).session_ports().at(other)
                },
                Err(e) => {
                    &&& !old(self).registry_spec().keeps(project@, scan)
                    &&& old(self).registry_spec().choice(preferred, scan) is None
                    &&& *final(self) == *old(self)
                },
            },
    {
        match self.registry.get_or_allocate(project, preferred, scan, now) {
            Ok(port) => {
                let ghost before = self.session_ports();
                self.project_ports.insert(owned(project), port);
                proof {
                    lemma_put_others(&before, &self.session_ports(), project@, port);
                }
                Ok(port)
            },
            Err(e) => Err(e),
        }
    }

    /// The environment of the processes of `project`: its port under the
    /// names `PORT` and `GIDTERM_PORT`, or nothing where the session has
    /// handed it none.
    pub fn get_env(&self, project: &str) -> (env: StrMap<String>)
        requires
            self.wf(),
        ensures
            env.wf(),
            if self.session_ports().has(project@) {
                let port = decimal(self.session_ports().at(project@) as nat);
                &&& env.keys() == seq!["PORT"@, "GIDTERM_PORT"@]
                &&& env.values().len() == 2
                &&& env.values()[0]@ == port
                &&& env.values()[1]@ == port
            } else {
                env.keys().len() == 0
            },
    {
        let mut env: StrMap<String> = StrMap::new();
        match self.project_ports.get(project) {
            Some(port) => {
                let mut digits: Vec<char> = Vec::new();
                push_decimal(&mut digits, *port as u64);
                assert(digits@ =~= decimal(*port as nat));
                env.insert(owned("PORT"), string_of(&digits));
                proof {
                    reveal_strlit("PORT");
                    reveal_strlit("GIDTERM_PORT");
                    assert("PORT"@ != "GIDTERM_PORT"@) by {
                        assert("PORT"@.len() != "GIDTERM_PORT"@.len());
                    }
                    assert(!env.has("GIDTERM_PORT"@)) by {
                        if env.has("GIDTERM_PORT"@) {
                            let i = env.keys().index_of("GIDTERM_PORT"@);
                            assert(env.keys()[i] == "PORT"@);
                        }
                    }
                }
                env.insert(owned("GIDTERM_PORT"), string_of(&digits));
                assert(env.keys() =~= seq!["PORT"@, "GIDTERM_PORT"@]);
            },
            None => {},
        }
        env
    }

    /// Marks the port of `project` as in use.
    pub fn activate(&mut self, project: &str, pid: Option<u32>, now: u64)
        requires
            old(self).wf(),
        ensures
            final(self).wf(),
            final(self).session_ports() == old(self).session_ports(),
            final(self).registry_spec().entries().keys() == old(self).registry_spec().entries().keys(),
            if old(self).registry_spec().entries().has(project@) {
                &&& final(self).registry_spec().entries().values() == old(self).registry_spec().entries().values().update(
                    old(self).registry_spec().entries().slot(project@),
                    PortEntry {
                        active: true,
                        pid,
                        last_active: Some(now),
                        ..old(self).registry_spec().entries().at(project@)
                    },
                )
                &&& final(self).registry_spec().unsaved()
            } else {
                final(self).registry_spec() == old(self).registry_spec()
            },
    {
        self.registry.mark_active(project, pid, now)
    }

    /// Marks the port of `project` as not in use.
    pub fn deactivate(&mut self, project: &str)
        requires
            old(self).wf(),
        ensures
            final(self).wf(),
            final(self).session_ports() == old(self).session_ports(),
            final(self).registry_spec().entries().keys() == old(self).registry_spec().entries().keys(),
            if old(self).registry_spec().entries().has(project@) {
                &&& final(self).registry_spec().entries().values() == old(self).registry_spec().entries().values().update(
                    old(self).registry_spec().entries().slot(project@),
                    PortEntry {
                        active: false,
                        pid: None,
                        last_active: None,
                        ..old(self).registry_spec().entries().at(project@)
                    },
                )
                &&& final(self).registry_spec().unsaved()
            } else {
                final(self).registry_spec() == old(self).registry_spec()
            },
    {
        self.registry.mark_inactive(project)
    }

    /// The port that the session has handed to `project`, if any.
    pub fn get_port(&self, project: &str) -> (r: Option<u16>)
        requires
            self.wf(),
        ensures
            r == if self.session_ports().has(project@) {
                Some(self.session_ports().at(project@))
            } else {
                None
            },
    {
        match self.project_ports.get(project) {
            Some(port) => Some(*port),
            None => None,
        }
    }

    /// All entries of the registry, by rising port.
    pub fn list(&self) -> (list: Vec<&PortEntry>)
        requires
            self.wf(),
        ensures
            list@.len() == self.registry_spec().entries().values().len(),
            forall|i: int, j: int| 0 <= i < j < list@.len() ==> (#[trigger] list@[i]).port < (#[trigger] list@[j]).port,
            forall|i: int|
                0 <= i < list@.len() ==> self.registry_spec().entries().values().contains(*#[trigger] list@[i]),
            forall|k: int|
                0 <= k < self.registry_spec().entries().values().len() ==> listed(
                    list@,
                    #[trigger] self.registry_spec().entries().values()[k],
                ),
    {
        self.registry.list_allocations()
    }

    /// Drops the stale entries of the registry and gives their number.
    pub fn cleanup(&mut self, scan: &PortScan) -> (count: usize)
        requires
            old(self).wf(),
        ensures
            final(self).wf(),
            final(self).session_ports() == old(self).session_ports(),
            final(self).registry_spec().entries().values() == old(self).registry_spec().entries().values().filter(|e: PortEntry| !is_stale(e, scan)),
            count == old(self).registry_spec().entries().values().len() - final(self).registry_spec().entries().values().len(),
            final(self).registry_spec().unsaved() == (old(self).registry_spec().unsaved() || count > 0),
    {
        self.registry.cleanup_stale(scan)
    }
}

} // verus!
