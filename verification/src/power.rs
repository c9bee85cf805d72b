//! Power: batteries carried by world objects, generators that charge them,
//! and the grid that runs the generators.
use vstd::prelude::*;
use crate::alerts::AlertHistory;
use crate::content::{ContentDatabase, GeneratorSpec, ItemId, PowerSpec};
use crate::dispatch::{DispatchBoard, DispatchIntent};
use crate::node::{position_less, position_lt, node_less, node_lt, push_node, GridPosition, NodeId};
use crate::resources::{Inventory, InventoryModel, InventorySnapshot};
use crate::text::{push_str, push_u64};

verus! {

/// Who carries a battery.
#[derive(Copy, Clone, Debug, PartialEq, Eq, Structural, PartialOrd, Ord, Hash)]
pub enum BatteryOwner {
    Node(NodeId),
    Hauler(u16),
    PowerLine(GridPosition),
}

/// Whether `a` orders before `b`: nodes, then haulers, then power lines.
pub open spec fn owner_less(a: BatteryOwner, b: BatteryOwner) -> bool {
    match (a, b) {
        (BatteryOwner::Node(x), BatteryOwner::Node(y)) => node_less(x, y),
        (BatteryOwner::Node(_), _) => true,
        (BatteryOwner::Hauler(x), BatteryOwner::Hauler(y)) => x < y,
        (BatteryOwner::Hauler(_), BatteryOwner::PowerLine(_)) => true,
        (BatteryOwner::PowerLine(p), BatteryOwner::PowerLine(q)) => position_less(p, q),
        _ => false,
    }
}

pub fn owner_lt(a: BatteryOwner, b: BatteryOwner) -> (r: bool)
    ensures
        r == owner_less(a, b),
{
    match (a, b) {
        (BatteryOwner::Node(x), BatteryOwner::Node(y)) => node_lt(x, y),
        (BatteryOwner::Node(_), _) => true,
        (BatteryOwner::Hauler(x), BatteryOwner::Hauler(y)) => x < y,
        (BatteryOwner::Hauler(_), BatteryOwner::PowerLine(_)) => true,
        (BatteryOwner::PowerLine(p), BatteryOwner::PowerLine(q)) => position_lt(p, q),
        _ => false,
    }
}

/// The battery `Battery::new` makes: at least five units of capacity,
/// charged to at most its capacity.
pub open spec fn made_battery(owner: BatteryOwner, energy: u32, capacity: u32) -> Battery {
    let c: u32 = if capacity < 5 { 5 } else { capacity };
    Battery { owner, energy: if energy < c { energy } else { c }, capacity: c }
}

#[derive(Copy, Clone, Debug, PartialEq, Eq, Structural)]
pub struct Battery {
    pub owner: BatteryOwner,
    pub energy: u32,
    pub capacity: u32,
}

impl Battery {
    /// A battery of at least five units of capacity, charged to at most its
    /// capacity.
    pub fn new(owner: BatteryOwner, energy: u32, capacity: u32) -> (r: Self)
        ensures
            r == made_battery(owner, energy, capacity),
            r.owner == owner,
            r.capacity == (if capacity < 5 { 5 } else { capacity }),
            r.energy == (if energy < r.capacity { energy } else { r.capacity }),
    {
        let capacity = if capacity < 5 { 5 } else { capacity };
        Battery { owner, energy: if energy < capacity { energy } else { capacity }, capacity }
    }

    /// Charges up to `amount`, as much as the capacity allows, and returns it.
    pub fn charge(&mut self, amount: u32) -> (accepted: u32)
        ensures
            accepted == (if amount < old(self).capacity - old(self).energy { amount as int }
                else if old(self).capacity >= old(self).energy { old(self).capacity - old(self).energy } else { 0 }),
            final(self).energy == old(self).energy + accepted,
            final(self).owner == old(self).owner,
            final(self).capacity == old(self).capacity,
    {
        let room = self.capacity.saturating_sub(self.energy);
        let accepted = if amount < room { amount } else { room };
        self.energy = self.energy + accepted;
        accepted
    }

    /// Draws `amount` if the battery holds it.
    pub fn consume(&mut self, amount: u32) -> (r: bool)
        ensures
            r == (old(self).energy >= amount),
            final(self).energy == (if r { (old(self).energy - amount) as u32 } else { old(self).energy }),
            final(self).owner == old(self).owner,
            final(self).capacity == old(self).capacity,
    {
        if self.energy < amount {
            return false;
        }
        self.energy = self.energy - amount;
        true
    }
}

/// Whether no owner appears twice.
pub open spec fn unique_owners(s: Seq<Battery>) -> bool {
    forall|i: int, j: int| 0 <= i < j < s.len() ==> s[i].owner != s[j].owner
}

/// The total energy held by the batteries.
pub open spec fn sum_energy(s: Seq<Battery>) -> int
    decreases s.len(),
{
    if s.len() == 0 { 0 } else { sum_energy(s.drop_last()) + s.last().energy }
}

/// The total capacity of the batteries.
pub open spec fn sum_capacity(s: Seq<Battery>) -> int
    decreases s.len(),
{
    if s.len() == 0 { 0 } else { sum_capacity(s.drop_last()) + s.last().capacity }
}

/// The batteries of a world, one per owner, kept in owner order.
#[derive(Clone, Debug, PartialEq, Eq)]
pub struct BatteryBank {
    batteries: Vec<Battery>,
}

impl BatteryBank {
    pub closed spec fn entries(self) -> Seq<Battery> {
        self.batteries@
    }

    /// One battery per owner, each charged to at most its capacity.
    pub closed spec fn wf(self) -> bool {
        &&& unique_owners(self.batteries@)
        &&& forall|k: int| 0 <= k < self.batteries@.len() ==> (#[trigger] self.batteries@[k]).energy <= self.batteries@[k].capacity
    }

    /// Every battery of a well-formed bank is within its capacity.
    pub proof fn lemma_within_capacity(self, k: int)
        requires
            self.wf(),
            0 <= k < self.entries().len(),
        ensures
            self.entries()[k].energy <= self.entries()[k].capacity,
    {
    }

    pub open spec fn has(self, owner: BatteryOwner) -> bool {
        exists|k: int| 0 <= k < self.entries().len() && self.entries()[k].owner == owner
    }

    /// Two stored batteries of one owner are the same battery.
    pub proof fn lemma_owner_unique(self, i: int, j: int)
        requires
            self.wf(),
            0 <= i < self.entries().len(),
            0 <= j < self.entries().len(),
            self.entries()[i].owner == self.entries()[j].owner,
        ensures
            i == j,
    {
        if i < j {
            assert(self.batteries@[i].owner != self.batteries@[j].owner);
        } else if j < i {
            assert(self.batteries@[j].owner != self.batteries@[i].owner);
        }
    }

    pub fn new() -> (r: Self)
        ensures
            r.wf(),
            r.entries().len() == 0,
    {
        BatteryBank { batteries: Vec::new() }
    }

    pub fn clear(&mut self)
        ensures
            final(self).wf(),
            final(self).entries().len() == 0,
    {
        self.batteries = Vec::new();
    }

    pub fn len(&self) -> (r: usize)
        ensures
            r == self.entries().len(),
    {
        self.batteries.len()
    }

    /// The batteries, in owner order.
    pub fn values(&self) -> (r: &Vec<Battery>)
        ensures
            r@ == self.entries(),
    {
        &self.batteries
    }

    /// Where the battery of `owner` is stored.
    pub fn find(&self, owner: BatteryOwner) -> (r: Option<usize>)
        ensures
            r matches Some(k) ==> k < self.entries().len() && self.entries()[k as int].owner == owner,
            r is None ==> !self.has(owner),
    {
        let mut k: usize = 0;
        while k < self.batteries.len()
            invariant
                k <= self.batteries@.len(),
                forall|j: int| 0 <= j < k ==> self.batteries@[j].owner != owner,
            decreases self.batteries@.len() - k,
        {
            if self.batteries[k].owner == owner {
                return Some(k);
            }
            k = k + 1;
        }
        None
    }

    /// The battery of `owner`, if it has one.
    pub fn get(&self, owner: &BatteryOwner) -> (r: Option<&Battery>)
        ensures
            r matches Some(b) ==> b.owner == *owner && self.entries().contains(*b),
            r is None ==> !self.has(*owner),
    {
        match self.find(*owner) {
            Some(k) => Some(&self.batteries[k]),
            None => None,
        }
    }

    /// The battery at a storage index.
    pub fn at(&self, k: usize) -> (r: Battery)
        requires
            k < self.entries().len(),
        ensures
            r == self.entries()[k as int],
    {
        self.batteries[k]
    }

    /// Replaces the battery at a storage index with one of the same owner.
    pub fn set_at(&mut self, k: usize, battery: Battery)
        requires
            k < old(self).entries().len(),
            battery.owner == old(self).entries()[k as int].owner,
            battery.energy <= battery.capacity,
            old(self).wf(),
        ensures
            final(self).wf(),
            final(self).entries() == old(self).entries().update(k as int, battery),
    {
        self.batteries.set(k, battery);
        assert forall|i: int, j: int| 0 <= i < j < self.batteries@.len() implies self.batteries@[i].owner != self.batteries@[j].owner by {
            assert(self.batteries@[i].owner == old(self).batteries@[i].owner);
            assert(self.batteries@[j].owner == old(self).batteries@[j].owner);
        }
    }

    /// Stores a battery under its owner, replacing the owner's earlier one,
    /// which it returns. A new owner takes its place in owner order.
    pub fn insert(&mut self, battery: Battery) -> (r: Option<Battery>)
        requires
            old(self).wf(),
            battery.energy <= battery.capacity,
        ensures
            final(self).wf(),
            final(self).has(battery.owner),
            final(self).entries().contains(battery),
            r matches Some(b) ==> old(self).entries().contains(b) && b.owner == battery.owner,
            r is None ==> !old(self).has(battery.owner) && final(self).entries().len() == old(self).entries().len() + 1,
            forall|b: Battery| b.owner != battery.owner ==> (final(self).entries().contains(b) <==> old(self).entries().contains(b)),
    {
        match self.find(battery.owner) {
            Some(k) => {
                let previous = self.batteries[k];
                self.set_at(k, battery);
                proof {
                    let before = old(self).batteries@;
                    let after = self.batteries@;
                    assert(after[k as int] == battery);
                    assert forall|b: Battery| b.owner != battery.owner implies (after.contains(b) <==> before.contains(b)) by {
                        if after.contains(b) {
                            let j = choose|j: int| 0 <= j < after.len() && after[j] == b;
                            assert(j != k);
                            assert(before[j] == b);
                        }
                        if before.contains(b) {
                            let j = choose|j: int| 0 <= j < before.len() && before[j] == b;
                            assert(j != k);
                            assert(after[j] == b);
                        }
                    }
                }
                Some(previous)
            },
            None => {
                let mut k: usize = 0;
                while k < self.batteries.len()
                    invariant
                        k <= self.batteries@.len(),
                        self.batteries@ == old(self).batteries@,
                    decreases self.batteries@.len() - k,
                {
                    if owner_lt(battery.owner, self.batteries[k].owner) {
                        break;
                    }
                    k = k + 1;
                }
                self.batteries.insert(k, battery);
                proof {
                    let before = old(self).batteries@;
                    let after = self.batteries@;
                    assert(after =~= before.insert(k as int, battery));
                    assert forall|i: int, j: int| 0 <= i < j < after.len() implies after[i].owner != after[j].owner by {
                        let i2 = if i < k { i } else { i - 1 };
                        let j2 = if j < k { j } else { j - 1 };
                        if i != k && j != k {
                            assert(after[i] == before[i2] && after[j] == before[j2]);
                        } else if i == k {
                            assert(after[j] == before[j2]);
                        } else {
                            assert(after[i] == before[i2]);
                        }
                    }
                    assert(after[k as int] == battery);
                    assert forall|b: Battery| b.owner != battery.owner implies (after.contains(b) <==> before.contains(b)) by {
                        if after.contains(b) {
                            let j = choose|j: int| 0 <= j < after.len() && after[j] == b;
                            let j2 = if j < k { j } else { j - 1 };
                            assert(j != k);
                            assert(before[j2] == b);
                        }
                        if before.contains(b) {
                            let j = choose|j: int| 0 <= j < before.len() && before[j] == b;
                            let j2 = if j < k { j } else { j + 1 };
                            assert(after[j2] == b);
                        }
                    }
                }
                None
            },
        }
    }

    /// Removes the battery of `owner` and returns it.
    pub fn remove(&mut self, owner: &BatteryOwner) -> (r: Option<Battery>)
        requires
            old(self).wf(),
        ensures
            final(self).wf(),
            !final(self).has(*owner),
            r matches Some(b) ==> b.owner == *owner && old(self).entries().contains(b),
            r is None ==> final(self).entries() == old(self).entries(),
            forall|b: Battery| b.owner != *owner ==> (final(self).entries().contains(b) <==> old(self).entries().contains(b)),
    {
        match self.find(*owner) {
            Some(k) => {
                let previous = self.batteries.remove(k);
                proof {
                    let before = old(self).batteries@;
                    let after = self.batteries@;
                    assert(after =~= before.remove(k as int));
                    assert forall|i: int, j: int| 0 <= i < j < after.len() implies after[i].owner != after[j].owner by {
                        let i2 = if i < k { i } else { i + 1 };
                        let j2 = if j < k { j } else { j + 1 };
                        assert(after[i] == before[i2] && after[j] == before[j2]);
                    }
                    assert forall|j: int| 0 <= j < after.len() implies after[j].owner != *owner by {
                        let j2 = if j < k { j } else { j + 1 };
                        assert(after[j] == before[j2]);
                    }
                    assert forall|b: Battery| b.owner != *owner implies (after.contains(b) <==> before.contains(b)) by {
                        if after.contains(b) {
                            let j = choose|j: int| 0 <= j < after.len() && after[j] == b;
                            let j2 = if j < k { j } else { j + 1 };
                            assert(before[j2] == b);
                        }
                        if before.contains(b) {
                            let j = choose|j: int| 0 <= j < before.len() && before[j] == b;
                            assert(j != k);
                            let j2 = if j < k { j } else { j - 1 };
                            assert(after[j2] == b);
                        }
                    }
                }
                Some(previous)
            },
            None => None,
        }
    }
}

#[derive(Clone, Debug)]
pub struct PowerGenerator {
    pub node: NodeId,
    pub fuel: Inventory,
    pub dispatch: DispatchBoard,
    pub spec: GeneratorSpec,
    pub alerts: AlertHistory,
}

/// Whether a generator's initial fuel fits the fuel inventory once the fuel
/// buffer is reserved.
pub open spec fn fuel_fits(content: ContentDatabase, spec: GeneratorSpec, fuel: InventoryModel) -> bool {
    match spec.fuel_item {
        Some(f) => fuel.with_reservation(f, spec.fuel_buffer).max_insertable(content, f, spec.initial_fuel) == spec.initial_fuel,
        None => true,
    }
}

/// What a generator asks for: fuel delivered from the road while it burns
/// fuel for output and holds less than its buffer.
pub open spec fn fuel_request(g: PowerGenerator) -> Seq<DispatchIntent> {
    match g.spec.fuel_item {
        Some(f) => if g.spec.burn_rate > 0 && g.spec.gain_rate > 0 && g.fuel.model().count(f) < g.spec.fuel_buffer {
            seq![DispatchIntent {
                verb: crate::dispatch::DispatchVerb::Deliver,
                item: f,
                from: NodeId::Road,
                to: g.node,
                priority: crate::dispatch::DispatchPriority(128),
            }]
        } else {
            Seq::empty()
        },
        None => Seq::empty(),
    }
}

impl PowerGenerator {
    /// A generator whose fuel inventory reserves its fuel buffer and holds its
    /// initial fuel.
    pub fn new(content: &ContentDatabase, node: NodeId, spec: GeneratorSpec, fuel: Inventory) -> (r: Self)
        requires
            content.wf(),
            fuel_fits(*content, spec, fuel.model()),
        ensures
            r.node == node,
            r.spec == spec,
            r.dispatch.intents@.len() == 0,
            r.alerts@.len() == 0,
            spec.fuel_item is None ==> r.fuel == fuel,
    {
        let mut fuel = fuel;
        match spec.fuel_item {
            Some(fuel_item) => {
                fuel.reserve(fuel_item, spec.fuel_buffer);
                fuel.insert_up_to(content, fuel_item, spec.initial_fuel);
            },
            None => {},
        }
        PowerGenerator { node, fuel, dispatch: DispatchBoard::new(), spec, alerts: AlertHistory::new() }
    }

    /// Asks for fuel while the generator burns fuel for output and holds less
    /// than its buffer.
    pub fn refresh_dispatch(&mut self)
        ensures
            final(self).dispatch.intents@ == fuel_request(*old(self)),
            final(self).node == old(self).node,
            final(self).spec == old(self).spec,
            final(self).fuel == old(self).fuel,
            final(self).alerts == old(self).alerts,
    {
        let mut intents: Vec<DispatchIntent> = Vec::new();
        match self.spec.fuel_item {
            Some(fuel_item) => {
                if self.spec.burn_rate > 0 && self.spec.gain_rate > 0 && self.fuel.count(fuel_item) < self.spec.fuel_buffer {
                    intents.push(DispatchIntent::deliver(fuel_item, NodeId::Road, self.node));
                }
            },
            None => {},
        }
        self.dispatch = DispatchBoard { intents };
        proof {
            let expected = match old(self).spec.fuel_item {
                Some(f) => if old(self).spec.burn_rate > 0 && old(self).spec.gain_rate > 0
                    && old(self).fuel.model().count(f) < old(self).spec.fuel_buffer {
                    seq![DispatchIntent {
                        verb: crate::dispatch::DispatchVerb::Deliver,
                        item: f,
                        from: NodeId::Road,
                        to: old(self).node,
                        priority: crate::dispatch::DispatchPriority(128),
                    }]
                } else { Seq::empty() },
                None => Seq::empty(),
            };
            assert(self.dispatch.intents@ =~= expected);
        }
    }

    /// Burns fuel and charges the battery for one tick, unless the battery is
    /// full, the generator yields nothing, or it lacks the fuel to burn.
    /// Returns the fuel burned and the energy generated.
    pub fn generate(&mut self, battery: &mut Battery, events: &mut Vec<String>) -> (r: (u32, u32))
        ensures
            r == generator_yield(*old(self), *old(battery)),
            final(self).node == old(self).node,
            final(self).spec == old(self).spec,
            final(battery).owner == old(battery).owner,
            final(battery).capacity == old(battery).capacity,
            (old(battery).energy >= old(battery).capacity || old(self).spec.gain_rate == 0
                || (old(self).spec.burn_rate > 0 && (old(self).spec.fuel_item matches Some(f) ==> old(self).fuel.model().count(f) < old(self).spec.burn_rate))
                || (old(self).spec.burn_rate > 0 && old(self).spec.fuel_item is None))
                ==> r == (0u32, 0u32) && *final(battery) == *old(battery) && final(self).fuel == old(self).fuel && final(events)@ == old(events)@,
            r.1 as int + old(battery).energy == final(battery).energy,
            final(battery).energy <= final(battery).capacity || final(battery).energy == old(battery).energy,
            r.0 == 0 || r.0 == old(self).spec.burn_rate,
            r.0 > 0 ==> (old(self).spec.fuel_item matches Some(f)
                && final(self).fuel.model() == old(self).fuel.model().removed(f, r.0)),
            r.0 == 0 ==> final(self).fuel == old(self).fuel,
            r != (0u32, 0u32) || final(events)@.len() == old(events)@.len() + 1 || final(events)@ == old(events)@,
            old(battery).energy < old(battery).capacity && old(self).spec.gain_rate > 0
                && (old(self).spec.burn_rate == 0 || (old(self).spec.fuel_item matches Some(f)
                    && old(self).fuel.model().count(f) >= old(self).spec.burn_rate))
                ==> r.0 == old(self).spec.burn_rate
                    && r.1 == (if old(self).spec.gain_rate < old(battery).capacity - old(battery).energy {
                        old(self).spec.gain_rate as int
                    } else {
                        old(battery).capacity - old(battery).energy
                    })
                    && final(events)@.len() == old(events)@.len() + 1
                    && final(events)@.take(old(events)@.len() as int) == old(events)@,
    {
        if battery.energy >= battery.capacity || self.spec.gain_rate == 0 {
            return (0, 0);
        }
        let burned: u32 = if self.spec.burn_rate == 0 {
            0
        } else {
            match self.spec.fuel_item {
                None => { return (0, 0); },
                Some(fuel_item) => {
                    if self.fuel.count(fuel_item) < self.spec.burn_rate {
                        return (0, 0);
                    }
                    self.fuel.remove_up_to(fuel_item, self.spec.burn_rate)
                },
            }
        };
        let generated = battery.charge(self.spec.gain_rate);
        let mut line = String::new();
        push_str(&mut line, "power generate ");
        push_node(&mut line, self.node);
        push_str(&mut line, " burned ");
        push_u64(&mut line, burned as u64);
        push_str(&mut line, " generated ");
        push_u64(&mut line, generated as u64);
        push_str(&mut line, " battery ");
        push_u64(&mut line, battery.energy as u64);
        push_str(&mut line, "/");
        push_u64(&mut line, battery.capacity as u64);
        events.push(line);
        assert(events@.take(old(events)@.len() as int) =~= old(events)@);
        (burned, generated)
    }

    fn snapshot(&self, energy: u32, capacity: u32) -> (r: GeneratorSnapshot)
        ensures
            r.node == self.node,
            r.fuel_item == self.spec.fuel_item,
            r.energy == energy,
            r.capacity == capacity,
            r.burn_rate == self.spec.burn_rate,
            r.gain_rate == self.spec.gain_rate,
            r.dispatch.intents@ == self.dispatch.intents@,
            r.alerts@ == self.alerts@,
    {
        GeneratorSnapshot {
            node: self.node,
            item: self.spec.item,
            fuel_item: self.spec.fuel_item,
            fuel: self.fuel.snapshot(),
            energy,
            capacity,
            burn_rate: self.spec.burn_rate,
            gain_rate: self.spec.gain_rate,
            dispatch: self.dispatch.duplicate(),
            alerts: self.alerts.duplicate(),
        }
    }
}

/// What a generator makes in one tick against its battery: the fuel it
/// burns and the energy it stores. Nothing while the battery is full, the
/// generator yields nothing, or it lacks the fuel to burn.
pub open spec fn generator_yield(g: PowerGenerator, b: Battery) -> (u32, u32) {
    if b.energy < b.capacity && g.spec.gain_rate > 0
        && (g.spec.burn_rate == 0 || (g.spec.fuel_item matches Some(f) && g.fuel.model().count(f) >= g.spec.burn_rate)) {
        (g.spec.burn_rate, if g.spec.gain_rate < b.capacity - b.energy { g.spec.gain_rate } else { (b.capacity - b.energy) as u32 })
    } else {
        (0, 0)
    }
}

/// The battery stored for an owner, if any.
pub open spec fn battery_of(bank: Seq<Battery>, owner: BatteryOwner) -> Option<Battery> {
    if exists|k: int| 0 <= k < bank.len() && (#[trigger] bank[k]).owner == owner {
        Some(bank[choose|k: int| 0 <= k < bank.len() && (#[trigger] bank[k]).owner == owner])
    } else {
        None
    }
}

/// What the `k`th generator makes against its battery; nothing without one.
pub open spec fn yield_at(gens: Seq<PowerGenerator>, bank: Seq<Battery>, k: int) -> (u32, u32) {
    match battery_of(bank, BatteryOwner::Node(gens[k].node)) {
        Some(b) => generator_yield(gens[k], b),
        None => (0, 0),
    }
}

/// The fuel burned and energy made by the first `n` generators, each total
/// saturating.
pub open spec fn grid_yield(gens: Seq<PowerGenerator>, bank: Seq<Battery>, n: nat) -> (u32, u32)
    decreases n,
{
    if n == 0 {
        (0, 0)
    } else {
        let before = grid_yield(gens, bank, (n - 1) as nat);
        let y = yield_at(gens, bank, n - 1);
        (crate::metrics::sat_add32(before.0, y.0), crate::metrics::sat_add32(before.1, y.1))
    }
}

/// No two generators stand on one node.
pub open spec fn distinct_generators(gens: Seq<PowerGenerator>) -> bool {
    forall|i: int, j: int| 0 <= i < j < gens.len() ==> (#[trigger] gens[i]).node != (#[trigger] gens[j]).node
}

/// A battery after the first `n` generators ran: charged by the generator
/// it belongs to, if that generator is among them.
pub open spec fn charged_by(gens: Seq<PowerGenerator>, b: Battery, n: int) -> Battery {
    if exists|j: int| 0 <= j < n && b.owner == BatteryOwner::Node((#[trigger] gens[j]).node) {
        let j = choose|j: int| 0 <= j < n && b.owner == BatteryOwner::Node((#[trigger] gens[j]).node);
        Battery { energy: (b.energy + generator_yield(gens[j], b).1) as u32, ..b }
    } else {
        b
    }
}

#[derive(Clone, Debug)]
pub struct PowerGrid {
    pub generators: Vec<PowerGenerator>,
    pub spec: PowerSpec,
}

impl PowerGrid {
    /// One generator per specified generator, numbered in order, each with a
    /// small fuel inventory.
    pub fn new(content: &ContentDatabase, spec: PowerSpec) -> (r: Self)
        requires
            content.wf(),
            spec.generators@.len() <= u16::MAX,
            forall|k: int| 0 <= k < spec.generators@.len() ==> fuel_fits(*content, #[trigger] spec.generators@[k], InventoryModel::empty(64, 64)),
        ensures
            r.generators@.len() == spec.generators@.len(),
            forall|k: int| 0 <= k < r.generators@.len() ==> #[trigger] r.generators@[k].node == NodeId::Generator(k as u16)
                && r.generators@[k].spec == spec.generators@[k],
            r.spec.mining_cost == spec.mining_cost,
            r.spec.dispatch_cost == spec.dispatch_cost,
            r.spec.production_cost == spec.production_cost,
    {
        let mut generators: Vec<PowerGenerator> = Vec::new();
        let mut k: usize = 0;
        while k < spec.generators.len()
            invariant
                content.wf(),
                spec.generators@.len() <= u16::MAX,
                forall|k: int| 0 <= k < spec.generators@.len() ==> fuel_fits(*content, #[trigger] spec.generators@[k], InventoryModel::empty(64, 64)),
                k <= spec.generators@.len(),
                generators@.len() == k,
                forall|j: int| 0 <= j < k ==> #[trigger] generators@[j].node == NodeId::Generator(j as u16)
                    && generators@[j].spec == spec.generators@[j],
            decreases spec.generators@.len() - k,
        {
            let generator_spec = copy_generator_spec(&spec.generators[k]);
            generators.push(PowerGenerator::new(content, NodeId::Generator(k as u16), generator_spec, Inventory::new(64, 64)));
            k = k + 1;
        }
        PowerGrid { generators, spec }
    }

    /// Each generator states what fuel it asks for.
    pub fn refresh_dispatch(&mut self)
        ensures
            final(self).generators@.len() == old(self).generators@.len(),
            forall|k: int| 0 <= k < final(self).generators@.len() ==> #[trigger] final(self).generators@[k].node == old(self).generators@[k].node
                && final(self).generators@[k].spec == old(self).generators@[k].spec,
            forall|k: int| 0 <= k < final(self).generators@.len() ==> {
                &&& (#[trigger] final(self).generators@[k]).dispatch.intents@ == fuel_request(old(self).generators@[k])
                &&& final(self).generators@[k].fuel == old(self).generators@[k].fuel
                &&& final(self).generators@[k].alerts == old(self).generators@[k].alerts
            },
            final(self).spec == old(self).spec,
    {
        let mut k: usize = 0;
        while k < self.generators.len()
            invariant
                k <= self.generators@.len(),
                self.generators@.len() == old(self).generators@.len(),
                forall|j: int| 0 <= j < self.generators@.len() ==> #[trigger] self.generators@[j].node == old(self).generators@[j].node
                    && self.generators@[j].spec == old(self).generators@[j].spec,
                forall|j: int| 0 <= j < self.generators@.len() ==> {
                    &&& (#[trigger] self.generators@[j]).fuel == old(self).generators@[j].fuel
                    &&& self.generators@[j].alerts == old(self).generators@[j].alerts
                },
                forall|j: int| 0 <= j < k ==> (#[trigger] self.generators@[j]).dispatch.intents@ == fuel_request(old(self).generators@[j]),
                forall|j: int| k <= j < self.generators@.len() ==> #[trigger] self.generators@[j] == old(self).generators@[j],
                self.spec == old(self).spec,
            decreases self.generators@.len() - k,
        {
            let ghost before = self.generators@;
            let mut generator = self.generators.remove(k);
            generator.refresh_dispatch();
            self.generators.insert(k, generator);
            proof {
                assert forall|j: int| 0 <= j < self.generators@.len() && j != k implies #[trigger] self.generators@[j] == before[j] by {}
            }
            k = k + 1;
        }
    }

    /// Runs every generator against its battery, in generator order, and
    /// returns the total fuel burned and energy generated (each saturating).
    /// A generator without a battery generates nothing.
    pub fn generate(&mut self, batteries: &mut BatteryBank, events: &mut Vec<String>) -> (r: (u32, u32))
        requires
            old(batteries).wf(),
        ensures
            final(batteries).wf(),
            final(self).generators@.len() == old(self).generators@.len(),
            forall|k: int| 0 <= k < final(self).generators@.len() ==> #[trigger] final(self).generators@[k].node == old(self).generators@[k].node
                && final(self).generators@[k].spec == old(self).generators@[k].spec,
            final(self).spec == old(self).spec,
            final(batteries).entries().len() == old(batteries).entries().len(),
            forall|k: int| 0 <= k < final(batteries).entries().len() ==>
                #[trigger] final(batteries).entries()[k].owner == old(batteries).entries()[k].owner
                && final(batteries).entries()[k].capacity == old(batteries).entries()[k].capacity,
            distinct_generators(old(self).generators@) ==> {
                let gens = old(self).generators@;
                let bank = old(batteries).entries();
                &&& r == grid_yield(gens, bank, gens.len())
                &&& forall|m: int| 0 <= m < bank.len() ==>
                    #[trigger] final(batteries).entries()[m] == charged_by(gens, bank[m], gens.len() as int)
                &&& forall|k: int| 0 <= k < gens.len() ==> {
                    let y = yield_at(gens, bank, k);
                    &&& (y.0 > 0 ==> (gens[k].spec.fuel_item matches Some(f)
                        && (#[trigger] final(self).generators@[k]).fuel.model() == gens[k].fuel.model().removed(f, y.0)))
                    &&& (y.0 == 0 ==> final(self).generators@[k].fuel == gens[k].fuel)
                }
            },
    {
        let ghost gens = old(self).generators@;
        let ghost bank = old(batteries).entries();
        let ghost distinct = distinct_generators(gens);
        let mut burned: u32 = 0;
        let mut generated: u32 = 0;
        let mut k: usize = 0;
        while k < self.generators.len()
            invariant
                batteries.wf(),
                old(batteries).wf(),
                gens == old(self).generators@,
                bank == old(batteries).entries(),
                distinct == distinct_generators(gens),
                k <= self.generators@.len(),
                self.generators@.len() == old(self).generators@.len(),
                forall|j: int| 0 <= j < self.generators@.len() ==> #[trigger] self.generators@[j].node == old(self).generators@[j].node
                    && self.generators@[j].spec == old(self).generators@[j].spec,
                self.spec == old(self).spec,
                batteries.entries().len() == old(batteries).entries().len(),
                forall|j: int| 0 <= j < batteries.entries().len() ==>
                    #[trigger] batteries.entries()[j].owner == old(batteries).entries()[j].owner
                    && batteries.entries()[j].capacity == old(batteries).entries()[j].capacity,
                forall|j: int| k <= j < self.generators@.len() ==> #[trigger] self.generators@[j] == gens[j],
                distinct ==> (burned, generated) == grid_yield(gens, bank, k as nat),
                distinct ==> forall|m: int| 0 <= m < bank.len() ==>
                    #[trigger] batteries.entries()[m] == charged_by(gens, bank[m], k as int),
                distinct ==> forall|j: int| 0 <= j < k ==> {
                    let y = yield_at(gens, bank, j);
                    &&& (y.0 > 0 ==> (gens[j].spec.fuel_item matches Some(f)
                        && (#[trigger] self.generators@[j]).fuel.model() == gens[j].fuel.model().removed(f, y.0)))
                    &&& (y.0 == 0 ==> self.generators@[j].fuel == gens[j].fuel)
                },
            decreases self.generators@.len() - k,
        {
            let owner = BatteryOwner::Node(self.generators[k].node);
            let ghost before_bank = batteries.entries();
            let ghost before_gens = self.generators@;
            match batteries.find(owner) {
                Some(b) => {
                    let mut battery = batteries.at(b);
                    let mut generator = self.generators.remove(k);
                    let (generator_burned, generator_output) = generator.generate(&mut battery, events);
                    self.generators.insert(k, generator);
                    batteries.set_at(b, battery);
                    burned = burned.saturating_add(generator_burned);
                    generated = generated.saturating_add(generator_output);
                    proof {
                        assert forall|j: int| 0 <= j < self.generators@.len() && j != k implies
                            #[trigger] self.generators@[j] == before_gens[j] by {}
                        if distinct {
                            lemma_charged_step(gens, bank, before_bank, batteries.entries(), k as int, b as int);
                        }
                    }
                },
                None => {
                    proof {
                        if distinct {
                            lemma_uncharged_step(gens, bank, batteries.entries(), k as int);
                        }
                    }
                },
            }
            k = k + 1;
        }
        (burned, generated)
    }

    /// Places a generator for `spec` and returns its node.
    pub fn deploy_generator(&mut self, content: &ContentDatabase, spec: GeneratorSpec) -> (r: NodeId)
        requires
            content.wf(),
            old(self).generators@.len() < u16::MAX,
            fuel_fits(*content, spec, InventoryModel::empty(64, 64)),
        ensures
            r == NodeId::Generator(old(self).generators@.len() as u16),
            final(self).generators@.len() == old(self).generators@.len() + 1,
            forall|k: int| 0 <= k < old(self).generators@.len() ==> #[trigger] final(self).generators@[k] == old(self).generators@[k],
            final(self).generators@.last().node == r,
            final(self).generators@.last().spec == spec,
            final(self).spec == old(self).spec,
    {
        let node = NodeId::Generator(self.generators.len() as u16);
        let generator = PowerGenerator::new(content, node, spec, Inventory::new(64, 64));
        self.generators.push(generator);
        node
    }

    /// The grid's totals, one snapshot per generator, and every battery.
    pub fn snapshot(&self, batteries: &BatteryBank) -> (r: PowerSnapshot)
        ensures
            r.batteries@ == batteries.entries(),
            r.generators@.len() == self.generators@.len(),
            forall|k: int| 0 <= k < r.generators@.len() ==> {
                let g = self.generators@[k];
                let owner = BatteryOwner::Node(g.node);
                &&& (#[trigger] r.generators@[k]).node == g.node
                &&& r.generators@[k].fuel_item == g.spec.fuel_item
                &&& r.generators@[k].burn_rate == g.spec.burn_rate
                &&& r.generators@[k].gain_rate == g.spec.gain_rate
                &&& batteries.has(owner) ==> batteries.entries().contains(
                    Battery { owner, energy: r.generators@[k].energy, capacity: r.generators@[k].capacity })
                &&& !batteries.has(owner) ==> r.generators@[k].energy == 0 && r.generators@[k].capacity == 0
            },
            r.energy == (if sum_energy(batteries.entries()) > u32::MAX { u32::MAX as int } else { sum_energy(batteries.entries()) }),
            r.capacity == (if sum_capacity(batteries.entries()) > u32::MAX { u32::MAX as int } else { sum_capacity(batteries.entries()) }),
    {
        let values = batteries.values();
        let mut copies: Vec<Battery> = Vec::new();
        let mut energy: u64 = 0;
        let mut capacity: u64 = 0;
        let mut k: usize = 0;
        while k < values.len()
            invariant
                values@ == batteries.entries(),
                k <= values@.len(),
                copies@ == values@.take(k as int),
                energy == (if sum_energy(values@.take(k as int)) > u32::MAX { u32::MAX as int } else { sum_energy(values@.take(k as int)) }),
                capacity == (if sum_capacity(values@.take(k as int)) > u32::MAX { u32::MAX as int } else { sum_capacity(values@.take(k as int)) }),
            decreases values@.len() - k,
        {
            let b = values[k];
            proof {
                assert(values@.take(k + 1).drop_last() =~= values@.take(k as int));
                assert(values@.take(k + 1).last() == b);
                lemma_sums_nonneg(values@.take(k as int));
            }
            copies.push(b);
            let e = energy + b.energy as u64;
            energy = if e > u32::MAX as u64 { u32::MAX as u64 } else { e };
            let c = capacity + b.capacity as u64;
            capacity = if c > u32::MAX as u64 { u32::MAX as u64 } else { c };
            k = k + 1;
            assert(copies@ =~= values@.take(k as int));
        }
        assert(values@.take(k as int) =~= values@);
        let mut generators: Vec<GeneratorSnapshot> = Vec::new();
        let mut g: usize = 0;
        while g < self.generators.len()
            invariant
                g <= self.generators@.len(),
                generators@.len() == g,
                forall|k: int| 0 <= k < g ==> {
                    let gen = self.generators@[k];
                    let owner = BatteryOwner::Node(gen.node);
                    &&& (#[trigger] generators@[k]).node == gen.node
                    &&& generators@[k].fuel_item == gen.spec.fuel_item
                    &&& generators@[k].burn_rate == gen.spec.burn_rate
                    &&& generators@[k].gain_rate == gen.spec.gain_rate
                    &&& batteries.has(owner) ==> batteries.entries().contains(
                        Battery { owner, energy: generators@[k].energy, capacity: generators@[k].capacity })
                    &&& !batteries.has(owner) ==> generators@[k].energy == 0 && generators@[k].capacity == 0
                },
            decreases self.generators@.len() - g,
        {
            let owner = BatteryOwner::Node(self.generators[g].node);
            let snapshot = match batteries.get(&owner) {
                Some(battery) => {
                    assert(*battery == Battery { owner, energy: battery.energy, capacity: battery.capacity });
                    self.generators[g].snapshot(battery.energy, battery.capacity)
                },
                None => self.generators[g].snapshot(0, 0),
            };
            generators.push(snapshot);
            g = g + 1;
        }
        PowerSnapshot { energy: energy as u32, capacity: capacity as u32, generators, batteries: copies }
    }
}

/// The `k`th generator finds its battery at `b`: it alone charges it, and
/// the tick's totals gain what it makes.
proof fn lemma_charged_step(
    gens: Seq<PowerGenerator>,
    bank: Seq<Battery>,
    before: Seq<Battery>,
    after: Seq<Battery>,
    k: int,
    b: int,
)
    requires
        distinct_generators(gens),
        0 <= k < gens.len(),
        0 <= b < bank.len(),
        before.len() == bank.len(),
        after.len() == bank.len(),
        forall|i: int, j: int| 0 <= i < j < bank.len() ==> bank[i].owner != bank[j].owner,
        forall|m: int| 0 <= m < bank.len() ==> #[trigger] before[m] == charged_by(gens, bank[m], k),
        bank[b].owner == BatteryOwner::Node(gens[k].node),
        after == before.update(b, Battery { energy: (before[b].energy + generator_yield(gens[k], before[b]).1) as u32, ..before[b] }),
        before[b].energy + generator_yield(gens[k], before[b]).1 <= u32::MAX,
    ensures
        before[b] == bank[b],
        yield_at(gens, bank, k) == generator_yield(gens[k], bank[b]),
        forall|m: int| 0 <= m < bank.len() ==> #[trigger] after[m] == charged_by(gens, bank[m], k + 1),
{
    assert(!(exists|j: int| 0 <= j < k && bank[b].owner == BatteryOwner::Node((#[trigger] gens[j]).node)));
    assert(before[b] == bank[b]);
    let c = choose|i: int| 0 <= i < bank.len() && (#[trigger] bank[i]).owner == BatteryOwner::Node(gens[k].node);
    assert(c == b);
    assert forall|m: int| 0 <= m < bank.len() implies #[trigger] after[m] == charged_by(gens, bank[m], k + 1) by {
        let j = choose|j: int| 0 <= j < k + 1 && bank[m].owner == BatteryOwner::Node((#[trigger] gens[j]).node);
        if m == b {
            assert(bank[m].owner == BatteryOwner::Node(gens[k].node));
            if 0 <= j < k + 1 && bank[m].owner == BatteryOwner::Node(gens[j].node) {
                assert(j == k);
            }
        } else {
            assert(bank[m].owner != BatteryOwner::Node(gens[k].node));
            assert(after[m] == before[m]);
            if exists|i: int| 0 <= i < k + 1 && bank[m].owner == BatteryOwner::Node((#[trigger] gens[i]).node) {
                let i2 = choose|i: int| 0 <= i < k && bank[m].owner == BatteryOwner::Node((#[trigger] gens[i]).node);
                assert(j < k);
                assert(0 <= j < k && bank[m].owner == BatteryOwner::Node(gens[j].node));
                if i2 != j {
                    if i2 < j { assert(gens[i2].node != gens[j].node); } else { assert(gens[j].node != gens[i2].node); }
                }
            }
        }
    }
}

/// The `k`th generator finds no battery: nothing changes.
proof fn lemma_uncharged_step(gens: Seq<PowerGenerator>, bank: Seq<Battery>, now: Seq<Battery>, k: int)
    requires
        distinct_generators(gens),
        0 <= k < gens.len(),
        now.len() == bank.len(),
        forall|m: int| 0 <= m < bank.len() ==> #[trigger] now[m] == charged_by(gens, bank[m], k),
        forall|m: int| 0 <= m < now.len() ==> now[m].owner != BatteryOwner::Node(gens[k].node),
        forall|m: int| 0 <= m < now.len() ==> #[trigger] now[m].owner == bank[m].owner,
    ensures
        yield_at(gens, bank, k) == (0u32, 0u32),
        forall|m: int| 0 <= m < bank.len() ==> #[trigger] now[m] == charged_by(gens, bank[m], k + 1),
{
    assert forall|m: int| 0 <= m < bank.len() implies bank[m].owner != BatteryOwner::Node(gens[k].node) by {
        assert(now[m].owner == bank[m].owner);
    }
    assert forall|m: int| 0 <= m < bank.len() implies #[trigger] now[m] == charged_by(gens, bank[m], k + 1) by {
        if exists|i: int| 0 <= i < k + 1 && bank[m].owner == BatteryOwner::Node((#[trigger] gens[i]).node) {
            let j = choose|j: int| 0 <= j < k + 1 && bank[m].owner == BatteryOwner::Node((#[trigger] gens[j]).node);
            let i2 = choose|i: int| 0 <= i < k && bank[m].owner == BatteryOwner::Node((#[trigger] gens[i]).node);
            assert(j < k);
            if i2 != j {
                if i2 < j { assert(gens[i2].node != gens[j].node); } else { assert(gens[j].node != gens[i2].node); }
            }
        }
    }
}

proof fn lemma_sums_nonneg(s: Seq<Battery>)
    ensures
        sum_energy(s) >= 0,
        sum_capacity(s) >= 0,
    decreases s.len(),
{
    if s.len() > 0 {
        lemma_sums_nonneg(s.drop_last());
    }
}

fn copy_generator_spec(spec: &GeneratorSpec) -> (r: GeneratorSpec)
    ensures
        r == *spec,
{
    GeneratorSpec {
        item: spec.item,
        fuel_item: spec.fuel_item,
        initial_fuel: spec.initial_fuel,
        fuel_buffer: spec.fuel_buffer,
        burn_rate: spec.burn_rate,
        gain_rate: spec.gain_rate,
        grid_capacity: spec.grid_capacity,
    }
}

#[derive(Clone, Debug, PartialEq, Eq)]
pub struct GeneratorSnapshot {
    pub node: NodeId,
    pub item: Option<ItemId>,
    pub fuel_item: Option<ItemId>,
    pub fuel: InventorySnapshot,
    pub energy: u32,
    pub capacity: u32,
    pub burn_rate: u32,
    pub gain_rate: u32,
    pub dispatch: DispatchBoard,
    pub alerts: AlertHistory,
}

#[derive(Clone, Debug, PartialEq, Eq)]
pub struct PowerSnapshot {
    pub energy: u32,
    pub capacity: u32,
    pub generators: Vec<GeneratorSnapshot>,
    pub batteries: Vec<Battery>,
}

} // verus!
