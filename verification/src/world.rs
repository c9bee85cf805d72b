//! The world objects of a simulation: deposits, factories and haulers, what
//! the world reports of them each tick, and the changes queued against it.
use vstd::prelude::*;
use crate::alerts::AlertHistory;
use crate::content::{ContentDatabase, ItemId, ScenarioDefinition, ScenarioId};
use crate::dispatch::{DispatchAssignment, DispatchBoard, DispatchIntent, DispatchPriority, DispatchReceiverState, DispatchVerb};
use crate::mining::MiningExtractor;
use crate::node::{GridPosition, NodeId};
use crate::power::{BatteryBank, PowerGrid, PowerSnapshot};
use crate::production::{CraftSnapshot, FactoryProduction};
use crate::radar::{DeploymentRadar, RadarSnapshot};
use crate::resources::{Inventory, InventoryModel, InventorySnapshot};
use crate::topology::{Topology, TopologyNode};
use std::collections::BTreeSet;

verus! {

/// A deposit: what was mined and waits for pickup, how it is mined, and
/// whether a drill or a generator stands on it.
#[derive(Clone, Debug)]
pub struct SourceNode {
    pub node: NodeId,
    pub stockpile: Inventory,
    pub item: ItemId,
    pub mining: MiningExtractor,
    pub dispatch: DispatchBoard,
    pub deployed: bool,
    pub occupied_by: Option<NodeId>,
    pub exhausted: bool,
    pub alerts: AlertHistory,
}

/// A transport of `item` from `from` to `to` at normal priority.
pub open spec fn intent(verb: DispatchVerb, item: ItemId, from: NodeId, to: NodeId) -> DispatchIntent {
    DispatchIntent { verb, item, from, to, priority: DispatchPriority(128) }
}

impl SourceNode {
    pub fn new(node: NodeId, stockpile: Inventory, item: ItemId, mining: MiningExtractor, deployed: bool) -> (r: Self)
        ensures
            r.node == node,
            r.stockpile == stockpile,
            r.item == item,
            r.mining == mining,
            r.dispatch.intents@.len() == 0,
            r.deployed == deployed,
            r.occupied_by is None,
            !r.exhausted,
            r.alerts@.len() == 0,
    {
        SourceNode {
            node,
            stockpile,
            item,
            mining,
            dispatch: DispatchBoard::new(),
            deployed,
            occupied_by: None,
            exhausted: false,
            alerts: AlertHistory::new(),
        }
    }

    /// A deployed deposit with stock asks for it to be collected to
    /// `factory_location`; any other asks for nothing.
    pub fn refresh_dispatch(&mut self, factory_location: NodeId)
        ensures
            final(self).dispatch.intents@ == (if old(self).deployed && old(self).stockpile.model().count(old(self).item) > 0 {
                seq![intent(DispatchVerb::Collect, old(self).item, old(self).node, factory_location)]
            } else {
                Seq::empty()
            }),
            final(self).node == old(self).node,
            final(self).stockpile == old(self).stockpile,
            final(self).item == old(self).item,
            final(self).mining == old(self).mining,
            final(self).deployed == old(self).deployed,
            final(self).occupied_by == old(self).occupied_by,
            final(self).exhausted == old(self).exhausted,
            final(self).alerts == old(self).alerts,
    {
        let mut intents: Vec<DispatchIntent> = Vec::new();
        if self.deployed && self.stockpile.count(self.item) > 0 {
            intents.push(DispatchIntent::collect(self.item, self.node, factory_location));
        }
        self.dispatch = DispatchBoard { intents };
        assert(self.dispatch.intents@ =~= (if old(self).deployed && old(self).stockpile.model().count(old(self).item) > 0 {
            seq![intent(DispatchVerb::Collect, old(self).item, old(self).node, factory_location)]
        } else {
            Seq::empty()
        }));
    }
}

/// A factory: its production, the input stock it keeps, and what it asks for.
#[derive(Clone, Debug)]
pub struct FactoryNode {
    pub node: NodeId,
    pub production: FactoryProduction,
    pub dispatch: DispatchBoard,
    pub input_buffer: u32,
    pub alerts: AlertHistory,
}

/// Deliveries to `node` of each input, in recipe order, that it holds less
/// of than `buffer`.
pub open spec fn missing_input_intents(inputs: Seq<(ItemId, u32)>, m: InventoryModel, buffer: u32, node: NodeId) -> Seq<DispatchIntent>
    decreases inputs.len(),
{
    if inputs.len() == 0 {
        Seq::empty()
    } else {
        let rest = missing_input_intents(inputs.drop_last(), m, buffer, node);
        if m.count(inputs.last().0) < buffer {
            rest.push(intent(DispatchVerb::Deliver, inputs.last().0, NodeId::Road, node))
        } else {
            rest
        }
    }
}

/// What a factory asks for: its missing inputs, then the collection of its
/// output when it holds output that is not built into the world.
pub open spec fn factory_intents(f: FactoryNode, content: ContentDatabase) -> Seq<DispatchIntent> {
    let m = f.production.inventory.model();
    let output = f.production.recipe.output_item;
    let missing = missing_input_intents(f.production.recipe.inputs@, m, f.input_buffer, f.node);
    if m.count(output) > 0 && !content.def(output).can_spawn_game_object {
        missing.push(intent(DispatchVerb::Collect, output, f.node, NodeId::Road))
    } else {
        missing
    }
}

impl FactoryNode {
    pub fn new(node: NodeId, production: FactoryProduction, input_buffer: u32) -> (r: Self)
        ensures
            r.node == node,
            r.production == production,
            r.dispatch.intents@.len() == 0,
            r.input_buffer == input_buffer,
            r.alerts@.len() == 0,
    {
        FactoryNode { node, production, dispatch: DispatchBoard::new(), input_buffer, alerts: AlertHistory::new() }
    }

    /// Asks for one delivery per missing input and for the collection of
    /// output that is not built into the world.
    pub fn refresh_dispatch(&mut self, content: &ContentDatabase)
        requires
            content.wf(),
        ensures
            final(self).dispatch.intents@ == factory_intents(*old(self), *content),
            final(self).node == old(self).node,
            final(self).production == old(self).production,
            final(self).input_buffer == old(self).input_buffer,
            final(self).alerts == old(self).alerts,
    {
        let mut intents: Vec<DispatchIntent> = Vec::new();
        let ghost m = self.production.inventory.model();
        let mut k: usize = 0;
        while k < self.production.recipe.inputs.len()
            invariant
                k <= self.production.recipe.inputs@.len(),
                *self == *old(self),
                m == self.production.inventory.model(),
                intents@ == missing_input_intents(self.production.recipe.inputs@.take(k as int), m, self.input_buffer, self.node),
            decreases self.production.recipe.inputs@.len() - k,
        {
            let item = self.production.recipe.inputs[k].0;
            proof {
                let inputs = self.production.recipe.inputs@;
                assert(inputs.take(k + 1).drop_last() =~= inputs.take(k as int));
                assert(inputs.take(k + 1).last() == inputs[k as int]);
            }
            if self.production.inventory.count(item) < self.input_buffer {
                intents.push(DispatchIntent::deliver(item, NodeId::Road, self.node));
            }
            k = k + 1;
        }
        proof {
            assert(self.production.recipe.inputs@.take(k as int) =~= self.production.recipe.inputs@);
        }
        let output_item = self.production.recipe.output_item;
        if self.production.inventory.count(output_item) > 0 && !content.item(output_item).can_spawn_game_object {
            intents.push(DispatchIntent::collect(output_item, self.node, NodeId::Road));
        }
        self.dispatch = DispatchBoard { intents };
    }
}

/// A hauler: its cargo, where it is and is headed, the transport it works on,
/// and the route it follows, next step first.
#[derive(Clone, Debug)]
pub struct Hauler {
    pub id: u16,
    pub cargo: Inventory,
    pub position: NodeId,
    pub target: NodeId,
    pub carry_limit: u32,
    pub dispatch: DispatchReceiverState,
    pub alerts: AlertHistory,
    pub route: Vec<NodeId>,
}

impl Hauler {
    pub fn new(id: u16, cargo: Inventory, position: NodeId, carry_limit: u32) -> (r: Self)
        ensures
            r.id == id,
            r.cargo == cargo,
            r.position == position,
            r.target == position,
            r.carry_limit == carry_limit,
            r.dispatch == DispatchReceiverState::Unassigned,
            r.alerts@.len() == 0,
            r.route@.len() == 0,
    {
        Hauler {
            id,
            cargo,
            position,
            target: position,
            carry_limit,
            dispatch: DispatchReceiverState::Unassigned,
            alerts: AlertHistory::new(),
            route: Vec::new(),
        }
    }

    /// Heads for `target`; a new target forgets the route.
    pub fn set_target(&mut self, target: NodeId)
        ensures
            final(self).target == target,
            final(self).route@ == (if old(self).target == target { old(self).route@ } else { Seq::empty() }),
            final(self).id == old(self).id,
            final(self).cargo == old(self).cargo,
            final(self).position == old(self).position,
            final(self).carry_limit == old(self).carry_limit,
            final(self).dispatch == old(self).dispatch,
            final(self).alerts == old(self).alerts,
    {
        if self.target != target {
            self.route = Vec::new();
        }
        self.target = target;
    }

    pub fn assign(&mut self, assignment: DispatchAssignment)
        ensures
            final(self).dispatch == DispatchReceiverState::Assigned(assignment),
            final(self).id == old(self).id,
            final(self).cargo == old(self).cargo,
            final(self).position == old(self).position,
            final(self).target == old(self).target,
            final(self).carry_limit == old(self).carry_limit,
            final(self).alerts == old(self).alerts,
            final(self).route == old(self).route,
    {
        self.dispatch = DispatchReceiverState::Assigned(assignment);
    }

    pub fn clear_assignment(&mut self)
        ensures
            final(self).dispatch == DispatchReceiverState::Unassigned,
            final(self).id == old(self).id,
            final(self).cargo == old(self).cargo,
            final(self).position == old(self).position,
            final(self).target == old(self).target,
            final(self).carry_limit == old(self).carry_limit,
            final(self).alerts == old(self).alerts,
            final(self).route == old(self).route,
    {
        self.dispatch = DispatchReceiverState::Unassigned;
    }
}

#[derive(Clone, Debug, PartialEq, Eq)]
pub struct SourceSnapshot {
    pub node: NodeId,
    pub item: ItemId,
    pub stockpile: InventorySnapshot,
    pub mining: MiningExtractor,
    pub dispatch: DispatchBoard,
    pub deployed: bool,
    pub occupied_by: Option<NodeId>,
    pub exhausted: bool,
    pub alerts: AlertHistory,
}

#[derive(Clone, Debug, PartialEq, Eq)]
pub struct FactorySnapshot {
    pub node: NodeId,
    pub inventory: InventorySnapshot,
    pub craft: CraftSnapshot,
    pub dispatch: DispatchBoard,
    pub alerts: AlertHistory,
}

/// A building placed at a build site.
#[derive(Clone, Debug, PartialEq, Eq)]
pub struct StructureSnapshot {
    pub node: NodeId,
    pub item: ItemId,
    pub alerts: AlertHistory,
}

#[derive(Clone, Debug, PartialEq, Eq)]
pub struct HaulerSnapshot {
    pub id: u16,
    pub position: NodeId,
    pub position_grid: GridPosition,
    pub target: NodeId,
    pub target_grid: GridPosition,
    pub cargo: InventorySnapshot,
    pub carry_limit: u32,
    pub dispatch: DispatchReceiverState,
    pub alerts: AlertHistory,
}

/// The power line a generator built toward the battery nearest to it.
#[derive(Clone, Debug, PartialEq, Eq)]
pub struct GeneratorPowerLine {
    pub generator: NodeId,
    pub target: NodeId,
    pub cells: Vec<GridPosition>,
}

#[derive(Clone, Debug, PartialEq, Eq)]
pub struct TopologySnapshot {
    pub width: i32,
    pub height: i32,
    pub nodes: Vec<TopologyNode>,
    pub blocked: BTreeSet<GridPosition>,
    pub obstacles: BTreeSet<GridPosition>,
    pub power_lines: BTreeSet<GridPosition>,
    pub generator_power_lines: Vec<GeneratorPowerLine>,
}

#[derive(Clone, Debug, PartialEq, Eq)]
pub struct ScenarioSnapshot {
    pub id: ScenarioId,
    pub name: String,
}

/// What the world reports after a tick.
#[derive(Clone, Debug, PartialEq, Eq)]
pub struct TickSnapshot {
    pub tick: u64,
    pub scenario: ScenarioSnapshot,
    pub topology: TopologySnapshot,
    pub sources: Vec<SourceSnapshot>,
    pub haulers: Vec<HaulerSnapshot>,
    pub factories: Vec<FactorySnapshot>,
    pub radars: Vec<RadarSnapshot>,
    pub structures: Vec<StructureSnapshot>,
    pub power: Option<PowerSnapshot>,
    pub events: Vec<String>,
}

/// Counts that show whether a long run is still doing work.
#[derive(Clone, Debug, PartialEq, Eq)]
pub struct LivenessSummary {
    pub tick: u64,
    pub deployed_sources: usize,
    pub occupied_sources: usize,
    pub exhausted_sources: usize,
    pub generators: usize,
    pub claimed_radars: usize,
    pub dispatch_intents: usize,
    pub assigned_haulers: usize,
    pub routed_haulers: usize,
    pub max_route_len: usize,
    pub queued_mutations: usize,
    pub power_links: usize,
    pub power_line_cells: usize,
}

/// A change to the world, queued during a tick and applied at its end.
#[derive(Copy, Clone, Debug, PartialEq, Eq, Structural)]
pub enum WorldMutation {
    DeploySource(u16),
    SpawnGenerator { source_index: u16, item: ItemId, hauler_id: u16 },
    DeleteDepletedDeposit(u16),
    TeardownSource(u16),
    SpawnStructure { site_index: u16, item: ItemId, hauler_id: u16 },
    MoveHauler { hauler_id: u16, from: NodeId, to: NodeId, target: NodeId },
}

/// Everything in a running world.
#[derive(Debug)]
pub struct WorldState {
    pub tick: u64,
    pub scenario: ScenarioDefinition,
    pub sources: Vec<SourceNode>,
    pub haulers: Vec<Hauler>,
    pub factories: Vec<FactoryNode>,
    pub radars: Vec<DeploymentRadar>,
    pub structures: Vec<StructureSnapshot>,
    pub power: Option<PowerGrid>,
    pub batteries: BatteryBank,
    /// The cells of every power line, each once.
    pub power_lines: Vec<GridPosition>,
    /// One entry per generator that has built its power line.
    pub generator_power_lines: Vec<GeneratorPowerLine>,
    pub topology: Topology,
    pub queued_mutations: Vec<WorldMutation>,
}

impl SourceNode {
    /// What the world reports of the deposit.
    pub fn snapshot(&self) -> (r: SourceSnapshot)
        ensures
            r.node == self.node,
            r.item == self.item,
            r.stockpile.shows(self.stockpile.model()),
            r.mining == self.mining,
            r.dispatch.intents@ == self.dispatch.intents@,
            r.deployed == self.deployed,
            r.occupied_by == self.occupied_by,
            r.exhausted == self.exhausted,
            r.alerts@ == self.alerts@,
    {
        SourceSnapshot {
            node: self.node,
            item: self.item,
            stockpile: self.stockpile.snapshot(),
            mining: self.mining,
            dispatch: self.dispatch.duplicate(),
            deployed: self.deployed,
            occupied_by: self.occupied_by,
            exhausted: self.exhausted,
            alerts: self.alerts.duplicate(),
        }
    }
}

impl FactoryNode {
    /// What the world reports of the factory.
    pub fn snapshot(&self) -> (r: FactorySnapshot)
        ensures
            r.node == self.node,
            r.inventory.shows(self.production.inventory.model()),
            r.craft.inputs.entries@ == self.production.recipe.inputs@,
            r.craft.output_quantity == self.production.recipe.output_quantity,
            r.craft.output_buffer == self.production.output_buffer,
            r.craft.craft_time == self.production.recipe.craft_time,
            r.craft.output_item == self.production.recipe.output_item,
            r.craft.craft_progress == self.production.craft_progress,
            r.craft.crafting == self.production.crafting,
            r.craft.blocked == self.production.blocked,
            r.dispatch.intents@ == self.dispatch.intents@,
            r.alerts@ == self.alerts@,
    {
        FactorySnapshot {
            node: self.node,
            inventory: self.production.inventory.snapshot(),
            craft: self.production.craft_snapshot(),
            dispatch: self.dispatch.duplicate(),
            alerts: self.alerts.duplicate(),
        }
    }
}

impl Hauler {
    /// What the world reports of the hauler, with its cells on the grid.
    pub fn snapshot(&self, topology: &Topology) -> (r: HaulerSnapshot)
        ensures
            r.id == self.id,
            r.position == self.position,
            r.position_grid == crate::topology::position_in(topology.nodes@, self.position),
            r.target == self.target,
            r.target_grid == crate::topology::position_in(topology.nodes@, self.target),
            r.cargo.shows(self.cargo.model()),
            r.carry_limit == self.carry_limit,
            r.dispatch == self.dispatch,
            r.alerts@ == self.alerts@,
    {
        HaulerSnapshot {
            id: self.id,
            position: self.position,
            position_grid: topology.position_or_origin(self.position),
            target: self.target,
            target_grid: topology.position_or_origin(self.target),
            cargo: self.cargo.snapshot(),
            carry_limit: self.carry_limit,
            dispatch: self.dispatch,
            alerts: self.alerts.duplicate(),
        }
    }
}

impl StructureSnapshot {
    pub fn duplicate(&self) -> (r: Self)
        ensures
            r.node == self.node,
            r.item == self.item,
            r.alerts@ == self.alerts@,
    {
        StructureSnapshot { node: self.node, item: self.item, alerts: self.alerts.duplicate() }
    }
}

/// A copy of a list of cells.
pub fn copy_cells(cells: &Vec<GridPosition>) -> (r: Vec<GridPosition>)
    ensures
        r@ == cells@,
{
    let mut out: Vec<GridPosition> = Vec::new();
    let mut k: usize = 0;
    while k < cells.len()
        invariant
            k <= cells@.len(),
            out@ == cells@.take(k as int),
        decreases cells@.len() - k,
    {
        out.push(cells[k]);
        k = k + 1;
        assert(out@ =~= cells@.take(k as int));
    }
    assert(cells@.take(k as int) =~= cells@);
    out
}

impl GeneratorPowerLine {
    pub fn duplicate(&self) -> (r: Self)
        ensures
            r.generator == self.generator,
            r.target == self.target,
            r.cells@ == self.cells@,
    {
        GeneratorPowerLine { generator: self.generator, target: self.target, cells: copy_cells(&self.cells) }
    }
}

} // verus!
