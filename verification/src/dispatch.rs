//! Dispatch: what world objects ask haulers to move, the priority a player
//! gives each demand, and the assignment a hauler works through.
use vstd::prelude::*;
use crate::content::ItemId;
use crate::node::NodeId;

verus! {

/// How urgently a demand is served; higher values are served first.
#[derive(Copy, Clone, Debug, PartialEq, Eq, Structural, PartialOrd, Ord, Hash)]
pub struct DispatchPriority(pub u8);

impl DispatchPriority {
    pub open spec fn spec_normal() -> DispatchPriority {
        DispatchPriority(128)
    }

    /// Low priority, 64.
    pub fn low() -> (r: Self)
        ensures
            r == DispatchPriority(64),
    {
        DispatchPriority(64)
    }

    /// Normal priority, 128: what a demand has unless a player sets another.
    #[verifier::when_used_as_spec(spec_normal)]
    pub fn normal() -> (r: Self)
        ensures
            r == DispatchPriority(128),
    {
        DispatchPriority(128)
    }

    /// High priority, 192.
    pub fn high() -> (r: Self)
        ensures
            r == DispatchPriority(192),
    {
        DispatchPriority(192)
    }

    pub fn new(value: u8) -> (r: Self)
        ensures
            r.0 == value,
    {
        DispatchPriority(value)
    }

    pub fn value(self) -> (r: u8)
        ensures
            r == self.0,
    {
        self.0
    }

    pub fn default() -> (r: Self)
        ensures
            r == DispatchPriority::normal(),
    {
        DispatchPriority::normal()
    }
}

/// The priority recorded for a destination and item: the first matching
/// entry, if any.
pub open spec fn lookup(s: Seq<(NodeId, ItemId, DispatchPriority)>, destination: NodeId, item: ItemId) -> Option<DispatchPriority>
    decreases s.len(),
{
    if s.len() == 0 {
        None
    } else if s[0].0 == destination && s[0].1 == item {
        Some(s[0].2)
    } else {
        lookup(s.drop_first(), destination, item)
    }
}

/// Whether no destination and item appear twice.
pub open spec fn unique_keys(s: Seq<(NodeId, ItemId, DispatchPriority)>) -> bool {
    forall|i: int, j: int| 0 <= i < j < s.len() ==> !(s[i].0 == s[j].0 && s[i].1 == s[j].1)
}

proof fn lemma_lookup_found(s: Seq<(NodeId, ItemId, DispatchPriority)>, destination: NodeId, item: ItemId, k: int)
    requires
        0 <= k < s.len(),
        s[k].0 == destination && s[k].1 == item,
        forall|j: int| 0 <= j < k ==> !(s[j].0 == destination && s[j].1 == item),
    ensures
        lookup(s, destination, item) == Some(s[k].2),
    decreases s.len(),
{
    if k > 0 {
        lemma_lookup_found(s.drop_first(), destination, item, k - 1);
    }
}

proof fn lemma_lookup_absent(s: Seq<(NodeId, ItemId, DispatchPriority)>, destination: NodeId, item: ItemId)
    requires
        forall|j: int| 0 <= j < s.len() ==> !(s[j].0 == destination && s[j].1 == item),
    ensures
        lookup(s, destination, item) is None,
    decreases s.len(),
{
    if s.len() > 0 {
        lemma_lookup_absent(s.drop_first(), destination, item);
    }
}

proof fn lemma_lookup_unique(s: Seq<(NodeId, ItemId, DispatchPriority)>, destination: NodeId, item: ItemId)
    requires
        unique_keys(s),
    ensures
        forall|k: int| 0 <= k < s.len() && s[k].0 == destination && s[k].1 == item ==> lookup(s, destination, item) == Some(s[k].2),
        (forall|k: int| 0 <= k < s.len() ==> !(s[k].0 == destination && s[k].1 == item)) ==> lookup(s, destination, item) is None,
{
    assert forall|k: int| 0 <= k < s.len() && s[k].0 == destination && s[k].1 == item implies lookup(s, destination, item) == Some(s[k].2) by {
        lemma_lookup_found(s, destination, item, k);
    }
    if forall|k: int| 0 <= k < s.len() ==> !(s[k].0 == destination && s[k].1 == item) {
        lemma_lookup_absent(s, destination, item);
    }
}

/// The priorities a player set, by destination and item. Demands without an
/// entry have normal priority.
#[derive(Clone, Debug, PartialEq, Eq)]
pub struct DispatchPolicy {
    priorities: Vec<(NodeId, ItemId, DispatchPriority)>,
}

impl DispatchPolicy {
    pub closed spec fn entries(self) -> Seq<(NodeId, ItemId, DispatchPriority)> {
        self.priorities@
    }

    /// Each demand has at most one entry, and none holds normal priority:
    /// normal is what a demand without an entry has.
    pub closed spec fn wf(self) -> bool {
        &&& unique_keys(self.priorities@)
        &&& forall|j: int| 0 <= j < self.priorities@.len() ==> (#[trigger] self.priorities@[j]).2 != DispatchPriority::normal()
    }

    /// No demand is stored at normal priority.
    pub proof fn lemma_no_normal_entry(self, destination: NodeId, item: ItemId)
        requires
            self.wf(),
        ensures
            self.get(destination, item) != Some(DispatchPriority::normal()),
    {
        lemma_lookup_unique(self.priorities@, destination, item);
        if exists|k: int| 0 <= k < self.priorities@.len() && self.priorities@[k].0 == destination && self.priorities@[k].1 == item {
            let k = choose|k: int| 0 <= k < self.priorities@.len() && self.priorities@[k].0 == destination && self.priorities@[k].1 == item;
            assert(self.priorities@[k].2 != DispatchPriority::normal());
        }
    }

    /// The priority set for a destination and item, if one was set.
    pub open spec fn get(self, destination: NodeId, item: ItemId) -> Option<DispatchPriority> {
        lookup(self.entries(), destination, item)
    }

    /// A policy without settings.
    pub fn default() -> (r: Self)
        ensures
            r.wf(),
            forall|d: NodeId, i: ItemId| r.get(d, i) is None,
    {
        DispatchPolicy { priorities: Vec::new() }
    }

    fn find(&self, destination: NodeId, item: ItemId) -> (r: Option<usize>)
        ensures
            r matches Some(k) ==> k < self.priorities@.len() && self.priorities@[k as int].0 == destination
                && self.priorities@[k as int].1 == item
                && forall|j: int| 0 <= j < k ==> !(self.priorities@[j].0 == destination && self.priorities@[j].1 == item),
            r is None ==> forall|j: int| 0 <= j < self.priorities@.len() ==> !(self.priorities@[j].0 == destination && self.priorities@[j].1 == item),
    {
        let mut k: usize = 0;
        while k < self.priorities.len()
            invariant
                k <= self.priorities@.len(),
                forall|j: int| 0 <= j < k ==> !(self.priorities@[j].0 == destination && self.priorities@[j].1 == item),
            decreases self.priorities@.len() - k,
        {
            if self.priorities[k].0 == destination && self.priorities[k].1 == item {
                return Some(k);
            }
            k = k + 1;
        }
        None
    }

    /// The priority of a demand: the one set for it, or normal.
    pub fn priority(&self, destination: NodeId, item: ItemId) -> (r: DispatchPriority)
        ensures
            r == match self.get(destination, item) { Some(p) => p, None => DispatchPriority::normal() },
    {
        match self.find(destination, item) {
            Some(k) => {
                proof { lemma_lookup_found(self.priorities@, destination, item, k as int); }
                self.priorities[k].2
            },
            None => {
                proof { lemma_lookup_absent(self.priorities@, destination, item); }
                DispatchPriority::normal()
            },
        }
    }

    /// Removes the setting for a demand and returns it.
    pub fn clear_priority(&mut self, destination: NodeId, item: ItemId) -> (r: Option<DispatchPriority>)
        requires
            old(self).wf(),
        ensures
            final(self).wf(),
            r == old(self).get(destination, item),
            r != Some(DispatchPriority::normal()),
            final(self).get(destination, item) is None,
            forall|d: NodeId, i: ItemId| !(d == destination && i == item) ==> final(self).get(d, i) == old(self).get(d, i),
    {
        proof {
            lemma_lookup_unique(self.priorities@, destination, item);
            self.lemma_no_normal_entry(destination, item);
        }
        match self.find(destination, item) {
            Some(k) => {
                let ghost before = self.priorities@;
                let p = self.priorities.remove(k);
                proof {
                    let after = self.priorities@;
                    assert(after =~= before.remove(k as int));
                    assert forall|j: int| 0 <= j < after.len() implies (#[trigger] after[j]).2 != DispatchPriority::normal() by {
                        let j2 = if j < k { j } else { j + 1 };
                        assert(after[j] == before[j2]);
                    }
                    assert(unique_keys(after)) by {
                        assert forall|i: int, j: int| 0 <= i < j < after.len() implies !(after[i].0 == after[j].0 && after[i].1 == after[j].1) by {
                            let i2 = if i < k { i } else { i + 1 };
                            let j2 = if j < k { j } else { j + 1 };
                            assert(after[i] == before[i2] && after[j] == before[j2]);
                        }
                    }
                    lemma_lookup_unique(after, destination, item);
                    assert forall|j: int| 0 <= j < after.len() implies !(after[j].0 == destination && after[j].1 == item) by {
                        let j2 = if j < k { j } else { j + 1 };
                        assert(after[j] == before[j2]);
                    }
                    assert forall|d: NodeId, i: ItemId| !(d == destination && i == item) implies lookup(after, d, i) == lookup(before, d, i) by {
                        lemma_lookup_unique(after, d, i);
                        lemma_lookup_unique(before, d, i);
                        if exists|m: int| 0 <= m < before.len() && before[m].0 == d && before[m].1 == i {
                            let m = choose|m: int| 0 <= m < before.len() && before[m].0 == d && before[m].1 == i;
                            let m2 = if m < k { m } else { m - 1 };
                            assert(after[m2] == before[m]);
                        } else {
                            assert forall|j: int| 0 <= j < after.len() implies !(after[j].0 == d && after[j].1 == i) by {
                                let j2 = if j < k { j } else { j + 1 };
                                assert(after[j] == before[j2]);
                            }
                        }
                    }
                }
                Some(p.2)
            },
            None => None,
        }
    }

    /// Sets the priority of a demand and returns the previous setting. Normal
    /// priority is the default, so setting it clears the entry.
    pub fn set_priority(&mut self, destination: NodeId, item: ItemId, priority: DispatchPriority) -> (r: Option<DispatchPriority>)
        requires
            old(self).wf(),
        ensures
            final(self).wf(),
            r == old(self).get(destination, item),
            r != Some(DispatchPriority::normal()),
            final(self).get(destination, item) == (if priority == DispatchPriority::normal() { None } else { Some(priority) }),
            forall|d: NodeId, i: ItemId| !(d == destination && i == item) ==> final(self).get(d, i) == old(self).get(d, i),
    {
        if priority == DispatchPriority::normal() {
            return self.clear_priority(destination, item);
        }
        proof {
            lemma_lookup_unique(self.priorities@, destination, item);
            self.lemma_no_normal_entry(destination, item);
        }
        let ghost before = self.priorities@;
        match self.find(destination, item) {
            Some(k) => {
                let old_entry = self.priorities[k];
                self.priorities.set(k, (destination, item, priority));
                proof {
                    let after = self.priorities@;
                    assert(after =~= before.update(k as int, (destination, item, priority)));
                    assert forall|j: int| 0 <= j < after.len() implies (#[trigger] after[j]).2 != DispatchPriority::normal() by {
                        if j != k { assert(after[j] == before[j]); }
                    }
                    assert(unique_keys(after)) by {
                        assert forall|i: int, j: int| 0 <= i < j < after.len() implies !(after[i].0 == after[j].0 && after[i].1 == after[j].1) by {
                            if i != k && j != k {
                                assert(after[i] == before[i] && after[j] == before[j]);
                            }
                        }
                    }
                    lemma_lookup_unique(after, destination, item);
                    assert(after[k as int] == (destination, item, priority));
                    assert forall|d: NodeId, i: ItemId| !(d == destination && i == item) implies lookup(after, d, i) == lookup(before, d, i) by {
                        lemma_lookup_unique(after, d, i);
                        lemma_lookup_unique(before, d, i);
                        assert forall|j: int| 0 <= j < after.len() && j != k implies after[j] == before[j] by {}
                    }
                }
                Some(old_entry.2)
            },
            None => {
                self.priorities.push((destination, item, priority));
                proof {
                    let after = self.priorities@;
                    assert(after =~= before.push((destination, item, priority)));
                    assert forall|j: int| 0 <= j < after.len() implies (#[trigger] after[j]).2 != DispatchPriority::normal() by {
                        if j < before.len() { assert(after[j] == before[j]); }
                    }
                    assert(unique_keys(after)) by {
                        assert forall|i: int, j: int| 0 <= i < j < after.len() implies !(after[i].0 == after[j].0 && after[i].1 == after[j].1) by {
                            if j < before.len() {
                                assert(after[i] == before[i] && after[j] == before[j]);
                            } else {
                                assert(after[i] == before[i]);
                            }
                        }
                    }
                    lemma_lookup_unique(after, destination, item);
                    assert(after[before.len() as int] == (destination, item, priority));
                    assert forall|d: NodeId, i: ItemId| !(d == destination && i == item) implies lookup(after, d, i) == lookup(before, d, i) by {
                        lemma_lookup_unique(after, d, i);
                        lemma_lookup_unique(before, d, i);
                        assert forall|j: int| 0 <= j < before.len() implies after[j] == before[j] by {}
                    }
                }
                None
            },
        }
    }
}

/// Setting a priority and reading it back gives the priority set, whatever
/// was set before; other demands keep theirs.
pub proof fn law_priority_read_back(before: DispatchPolicy, after: DispatchPolicy, destination: NodeId, item: ItemId, priority: DispatchPriority)
    requires
        after.get(destination, item) == (if priority == DispatchPriority::normal() { None } else { Some(priority) }),
    ensures
        (match after.get(destination, item) { Some(p) => p, None => DispatchPriority::normal() }) == priority,
{
}

/// Setting a priority and then clearing it hands back what was set (nothing
/// for normal priority) and leaves the demand at normal; every other demand
/// keeps the setting it had before both calls.
pub proof fn law_set_then_clear(
    before: DispatchPolicy,
    set: DispatchPolicy,
    cleared: DispatchPolicy,
    returned: Option<DispatchPriority>,
    destination: NodeId,
    item: ItemId,
    priority: DispatchPriority,
)
    requires
        set.get(destination, item) == (if priority == DispatchPriority::normal() { None } else { Some(priority) }),
        forall|d: NodeId, i: ItemId| !(d == destination && i == item) ==> set.get(d, i) == before.get(d, i),
        returned == set.get(destination, item),
        cleared.get(destination, item) is None,
        forall|d: NodeId, i: ItemId| !(d == destination && i == item) ==> cleared.get(d, i) == set.get(d, i),
    ensures
        returned == (if priority == DispatchPriority::normal() { None } else { Some(priority) }),
        forall|d: NodeId, i: ItemId| #[trigger] cleared.get(d, i) == (if d == destination && i == item { None } else { before.get(d, i) }),
{
}

#[derive(Copy, Clone, Debug, PartialEq, Eq, Structural)]
pub enum DispatchVerb {
    Collect,
    Deliver,
    Retrieve,
    Deploy,
}

#[derive(Copy, Clone, Debug, PartialEq, Eq, Structural)]
pub enum DispatchPhase {
    Collect,
    Deliver,
    Retrieve,
    Deploy,
}

/// A transport a world object asks for.
#[derive(Copy, Clone, Debug, PartialEq, Eq, Structural)]
pub struct DispatchIntent {
    pub verb: DispatchVerb,
    pub item: ItemId,
    pub from: NodeId,
    pub to: NodeId,
    pub priority: DispatchPriority,
}

impl DispatchIntent {
    pub fn collect(item: ItemId, from: NodeId, to: NodeId) -> (r: Self)
        ensures
            r == (DispatchIntent { verb: DispatchVerb::Collect, item, from, to, priority: DispatchPriority::normal() }),
    {
        DispatchIntent { verb: DispatchVerb::Collect, item, from, to, priority: DispatchPriority::normal() }
    }

    pub fn deliver(item: ItemId, from: NodeId, to: NodeId) -> (r: Self)
        ensures
            r == (DispatchIntent { verb: DispatchVerb::Deliver, item, from, to, priority: DispatchPriority::normal() }),
    {
        DispatchIntent { verb: DispatchVerb::Deliver, item, from, to, priority: DispatchPriority::normal() }
    }

    pub fn retrieve(item: ItemId, from: NodeId, to: NodeId) -> (r: Self)
        ensures
            r == (DispatchIntent { verb: DispatchVerb::Retrieve, item, from, to, priority: DispatchPriority::normal() }),
    {
        DispatchIntent { verb: DispatchVerb::Retrieve, item, from, to, priority: DispatchPriority::normal() }
    }

    pub fn deploy(item: ItemId, from: NodeId, to: NodeId) -> (r: Self)
        ensures
            r == (DispatchIntent { verb: DispatchVerb::Deploy, item, from, to, priority: DispatchPriority::normal() }),
    {
        DispatchIntent { verb: DispatchVerb::Deploy, item, from, to, priority: DispatchPriority::normal() }
    }

    pub fn with_priority(self, priority: DispatchPriority) -> (r: Self)
        ensures
            r == (DispatchIntent { priority, ..self }),
    {
        DispatchIntent { priority, ..self }
    }
}

/// The transport a hauler works on, and the phase it has reached.
#[derive(Copy, Clone, Debug, PartialEq, Eq, Structural)]
pub struct DispatchAssignment {
    pub item: ItemId,
    pub source: NodeId,
    pub destination: NodeId,
    pub phase: DispatchPhase,
    pub priority: DispatchPriority,
}

impl DispatchAssignment {
    pub fn collect(item: ItemId, source: NodeId, destination: NodeId) -> (r: Self)
        ensures
            r == (DispatchAssignment { item, source, destination, phase: DispatchPhase::Collect, priority: DispatchPriority::normal() }),
    {
        DispatchAssignment { item, source, destination, phase: DispatchPhase::Collect, priority: DispatchPriority::normal() }
    }

    pub fn collect_with_priority(item: ItemId, source: NodeId, destination: NodeId, priority: DispatchPriority) -> (r: Self)
        ensures
            r == (DispatchAssignment { item, source, destination, phase: DispatchPhase::Collect, priority }),
    {
        DispatchAssignment { item, source, destination, phase: DispatchPhase::Collect, priority }
    }

    pub fn retrieve(item: ItemId, source: NodeId, destination: NodeId) -> (r: Self)
        ensures
            r == (DispatchAssignment { item, source, destination, phase: DispatchPhase::Retrieve, priority: DispatchPriority::normal() }),
    {
        DispatchAssignment { item, source, destination, phase: DispatchPhase::Retrieve, priority: DispatchPriority::normal() }
    }
}

/// The transports a world object currently asks for.
#[derive(Clone, Debug, PartialEq, Eq)]
pub struct DispatchBoard {
    pub intents: Vec<DispatchIntent>,
}

impl DispatchBoard {
    pub fn new() -> (r: Self)
        ensures
            r.intents@.len() == 0,
    {
        DispatchBoard { intents: Vec::new() }
    }

    /// A copy of the board.
    pub fn duplicate(&self) -> (r: Self)
        ensures
            r.intents@ == self.intents@,
    {
        let mut intents: Vec<DispatchIntent> = Vec::new();
        let mut k: usize = 0;
        while k < self.intents.len()
            invariant
                k <= self.intents@.len(),
                intents@ == self.intents@.take(k as int),
            decreases self.intents@.len() - k,
        {
            intents.push(self.intents[k]);
            k = k + 1;
            assert(intents@ =~= self.intents@.take(k as int));
        }
        assert(self.intents@.take(k as int) =~= self.intents@);
        DispatchBoard { intents }
    }
}

/// Whether a hauler works on an assignment.
#[derive(Copy, Clone, Debug, PartialEq, Eq, Structural)]
pub enum DispatchReceiverState {
    Unassigned,
    Assigned(DispatchAssignment),
}

impl DispatchReceiverState {
    pub fn default() -> (r: Self)
        ensures
            r == DispatchReceiverState::Unassigned,
    {
        DispatchReceiverState::Unassigned
    }
}

} // verus!
