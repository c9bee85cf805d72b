//! The simulation: a world built from a scenario, advanced one tick at a time
//! through mining, dispatch, transport, production and power.
use vstd::prelude::*;
use crate::alerts::{recorded, AlertHistory};
use crate::content::{
    ContentDatabase, FactorySpec, GeneratorSpec, ItemId, ScenarioDefinition, ScenarioId, COAL, COAL_PLANT, IRON_BARS_SCENARIO, ITEM_COUNT, MINING_DRILL,
};
use crate::dispatch::{DispatchAssignment, DispatchIntent, DispatchPhase, DispatchPolicy, DispatchPriority, DispatchReceiverState};
use crate::metrics::{RunMetrics, RunMetricsSnapshot};
use crate::mining::{available_to_mine, Deposit, MiningExtractor};
use crate::node::{GridPosition, NodeId};
use crate::power::{fuel_fits, made_battery, sum_energy, Battery, BatteryBank, BatteryOwner, PowerGrid};
use crate::balance::{count_true, sat_add64, units_moved};
use crate::tally::{count_where, first_index, lemma_count_where_bound, lemma_first_index, lemma_prefix_step, max_of, sum_of};
use crate::production::{advanced_once, FactoryProduction, RecipeRuntime};
use crate::radar::DeploymentRadar;
use crate::resources::{nonzero_prefix, Inventory, InventoryModel};
use crate::topology::{position_set, Topology};
use crate::world::{
    FactoryNode, FactorySnapshot, GeneratorPowerLine, Hauler, HaulerSnapshot, LivenessSummary, ScenarioSnapshot,
    SourceNode, SourceSnapshot, StructureSnapshot, TickSnapshot, TopologySnapshot, WorldMutation, WorldState,
};

verus! {

/// Why a scenario cannot be simulated.
#[derive(Copy, Clone, Debug, PartialEq, Eq, Structural)]
pub enum SimulationError {
    UnknownScenario(ScenarioId),
    ScenarioMissingSources(ScenarioId),
    ScenarioMissingFactories(ScenarioId),
    ScenarioLayoutMismatch(ScenarioId),
    RecipeMissingIngredients(ItemId),
}

/// What a player is told of a scenario that cannot be simulated.
pub open spec fn simulation_error_text(e: SimulationError) -> Seq<char> {
    match e {
        SimulationError::UnknownScenario(id) => "unknown scenario: "@ + crate::content::scenario_name(id),
        SimulationError::ScenarioMissingSources(id) => "scenario "@ + crate::content::scenario_name(id) + " must define at least one source"@,
        SimulationError::ScenarioMissingFactories(id) => "scenario "@ + crate::content::scenario_name(id) + " must define at least one factory"@,
        SimulationError::ScenarioLayoutMismatch(id) => "scenario "@ + crate::content::scenario_name(id) + " layout does not match its world objects"@,
        SimulationError::RecipeMissingIngredients(id) => "recipe for "@ + crate::content::item_name(id) + " must have at least one ingredient"@,
    }
}

impl SimulationError {
    /// The message for the player.
    pub fn message(&self) -> (r: String)
        ensures
            r@ == simulation_error_text(*self),
    {
        let mut s = String::new();
        match self {
            SimulationError::UnknownScenario(id) => {
                crate::text::push_str(&mut s, "unknown scenario: ");
                crate::text::push_str(&mut s, id.as_str());
            },
            SimulationError::ScenarioMissingSources(id) => {
                crate::text::push_str(&mut s, "scenario ");
                crate::text::push_str(&mut s, id.as_str());
                crate::text::push_str(&mut s, " must define at least one source");
            },
            SimulationError::ScenarioMissingFactories(id) => {
                crate::text::push_str(&mut s, "scenario ");
                crate::text::push_str(&mut s, id.as_str());
                crate::text::push_str(&mut s, " must define at least one factory");
            },
            SimulationError::ScenarioLayoutMismatch(id) => {
                crate::text::push_str(&mut s, "scenario ");
                crate::text::push_str(&mut s, id.as_str());
                crate::text::push_str(&mut s, " layout does not match its world objects");
            },
            SimulationError::RecipeMissingIngredients(id) => {
                crate::text::push_str(&mut s, "recipe for ");
                crate::text::push_str(&mut s, id.as_str());
                crate::text::push_str(&mut s, " must have at least one ingredient");
            },
        }
        assert(s@ =~= simulation_error_text(*self));
        s
    }
}

/// The model of an inventory with `quantity` reserved for each listed item.
pub open spec fn reserved_inputs(m: InventoryModel, inputs: Seq<(ItemId, u32)>, quantity: u32) -> InventoryModel
    decreases inputs.len(),
{
    if inputs.len() == 0 {
        m
    } else {
        reserved_inputs(m, inputs.drop_last(), quantity).with_reservation(inputs.last().0, quantity)
    }
}

/// The model after each listed item is reserved at and stocked with its
/// quantity, or `None` when one of them does not fit.
pub open spec fn stocked(content: ContentDatabase, m: InventoryModel, items: Seq<(ItemId, u32)>) -> Option<InventoryModel>
    decreases items.len(),
{
    if items.len() == 0 {
        Some(m)
    } else {
        match stocked(content, m, items.drop_last()) {
            Some(before) => {
                let item = items.last().0;
                let quantity = items.last().1;
                let reserved = before.with_reservation(item, quantity);
                if reserved.max_insertable(content, item, quantity) == quantity {
                    Some(reserved.added(item, quantity))
                } else {
                    None
                }
            },
            None => None,
        }
    }
}

/// The inventory a factory starts with: recipe inputs reserved at the input
/// buffer, the product at the output buffer, then the starting items.
pub open spec fn factory_start(content: ContentDatabase, spec: FactorySpec) -> Option<InventoryModel> {
    let m = reserved_inputs(InventoryModel::empty(1024, 1024), content.def(spec.product_item).ingredients@, spec.input_buffer)
        .with_reservation(spec.product_item, spec.output_buffer);
    stocked(content, m, spec.starting_items@)
}

/// What a scenario needs beyond its own checks: objects numbered within
/// `u16`, starting stock and generator fuel that fit their inventories.
pub open spec fn scenario_fits(content: ContentDatabase, s: ScenarioDefinition) -> bool {
    &&& s.sources@.len() <= 0x1_0000
    &&& s.factories@.len() <= 0x1_0000
    &&& s.radars@.len() <= 0x1_0000
    &&& s.build_sites@.len() <= 0x1_0000
    &&& s.hauler_count <= 0x1_0000
    &&& forall|k: int| 0 <= k < s.factories@.len() ==> (#[trigger] factory_start(content, s.factories@[k])) is Some
    &&& s.power matches Some(p) ==> {
        &&& p.generators@.len() < u16::MAX
        &&& forall|k: int| 0 <= k < p.generators@.len() ==> fuel_fits(content, #[trigger] p.generators@[k], InventoryModel::empty(64, 64))
    }
}

/// Whether the objects of a scenario disagree with its layout.
pub open spec fn layout_mismatch(s: ScenarioDefinition) -> bool {
    ||| s.sources@.len() != s.layout.source_positions@.len()
    ||| s.factories@.len() != s.layout.factory_positions@.len()
    ||| (s.layout.hauler_positions@.len() != 0 && s.hauler_count != s.layout.hauler_positions@.len())
    ||| (match s.power { Some(p) => p.generators@.len(), None => 0 }) != s.layout.generator_positions@.len()
}

/// Whether a factory's product has no recipe and is not made from nothing.
pub open spec fn recipe_missing(content: ContentDatabase, spec: FactorySpec) -> bool {
    content.def(spec.product_item).ingredients@.len() == 0 && !content.def(spec.product_item).create_from_nothing
}

/// The first stored scenario with an id.
pub open spec fn first_scenario(content: ContentDatabase, id: ScenarioId) -> Option<int> {
    if exists|k: int| 0 <= k < content.scenarios@.len() && content.scenarios@[k].id == id {
        Some(choose|k: int| 0 <= k < content.scenarios@.len() && content.scenarios@[k].id == id
            && forall|j: int| 0 <= j < k ==> content.scenarios@[j].id != id)
    } else {
        None
    }
}

/// The first factory whose recipe is missing.
pub open spec fn first_missing_recipe(content: ContentDatabase, s: ScenarioDefinition) -> Option<int> {
    if exists|k: int| 0 <= k < s.factories@.len() && recipe_missing(content, s.factories@[k]) {
        Some(choose|k: int| 0 <= k < s.factories@.len() && recipe_missing(content, s.factories@[k])
            && forall|j: int| 0 <= j < k ==> !recipe_missing(content, s.factories@[j]))
    } else {
        None
    }
}

/// Why a scenario of the content cannot be simulated, checked in order.
pub open spec fn scenario_error(content: ContentDatabase, id: ScenarioId) -> Option<SimulationError> {
    match first_scenario(content, id) {
        None => Some(SimulationError::UnknownScenario(id)),
        Some(k) => {
            let s = content.scenarios@[k];
            if s.factories@.len() == 0 {
                Some(SimulationError::ScenarioMissingFactories(id))
            } else if layout_mismatch(s) {
                Some(SimulationError::ScenarioLayoutMismatch(id))
            } else {
                match first_missing_recipe(content, s) {
                    Some(f) => Some(SimulationError::RecipeMissingIngredients(s.factories@[f].product_item)),
                    None => None,
                }
            }
        },
    }
}

/// A running simulation.
pub struct GameState {
    pub world: WorldState,
    content: ContentDatabase,
    dispatch_policy: DispatchPolicy,
    metrics: RunMetrics,
}

fn copy_items(items: &Vec<(ItemId, u32)>) -> (r: Vec<(ItemId, u32)>)
    ensures
        r@ == items@,
{
    let mut out: Vec<(ItemId, u32)> = Vec::new();
    let mut k: usize = 0;
    while k < items.len()
        invariant
            k <= items@.len(),
            out@ == items@.take(k as int),
        decreases items@.len() - k,
    {
        out.push(items[k]);
        k = k + 1;
        assert(out@ =~= items@.take(k as int));
    }
    assert(items@.take(k as int) =~= items@);
    out
}

/// The starting inventory of a factory.
fn factory_inventory(content: &ContentDatabase, spec: &FactorySpec) -> (r: Inventory)
    requires
        content.wf(),
        factory_start(*content, *spec) is Some,
    ensures
        Some(r.model()) == factory_start(*content, *spec),
{
    let mut inventory = Inventory::new(1024, 1024);
    let inputs = &content.item(spec.product_item).ingredients;
    let mut k: usize = 0;
    while k < inputs.len()
        invariant
            k <= inputs@.len(),
            inventory.model() == reserved_inputs(InventoryModel::empty(1024, 1024), inputs@.take(k as int), spec.input_buffer),
        decreases inputs@.len() - k,
    {
        proof {
            assert(inputs@.take(k + 1).drop_last() =~= inputs@.take(k as int));
        }
        inventory.reserve(inputs[k].0, spec.input_buffer);
        k = k + 1;
    }
    assert(inputs@.take(k as int) =~= inputs@);
    inventory.reserve(spec.product_item, spec.output_buffer);
    let ghost base = inventory.model();
    let mut k: usize = 0;
    while k < spec.starting_items.len()
        invariant
            content.wf(),
            k <= spec.starting_items@.len(),
            base == reserved_inputs(InventoryModel::empty(1024, 1024), content.def(spec.product_item).ingredients@, spec.input_buffer)
                .with_reservation(spec.product_item, spec.output_buffer),
            stocked(*content, base, spec.starting_items@) is Some,
            stocked(*content, base, spec.starting_items@.take(k as int)) == Some(inventory.model()),
        decreases spec.starting_items@.len() - k,
    {
        let (item, quantity) = spec.starting_items[k];
        proof {
            let items = spec.starting_items@;
            assert(items.take(k + 1).drop_last() =~= items.take(k as int));
            lemma_stocked_prefix(*content, base, items, k + 1);
        }
        inventory.reserve(item, quantity);
        inventory.insert_up_to(content, item, quantity);
        k = k + 1;
    }
    assert(spec.starting_items@.take(k as int) =~= spec.starting_items@);
    inventory
}

/// Whether a factory's starting stock fits its inventory.
fn factory_start_fits(content: &ContentDatabase, spec: &FactorySpec) -> (r: bool)
    requires
        content.wf(),
    ensures
        r == (factory_start(*content, *spec) is Some),
{
    let mut inventory = Inventory::new(1024, 1024);
    let inputs = &content.item(spec.product_item).ingredients;
    let mut k: usize = 0;
    while k < inputs.len()
        invariant
            k <= inputs@.len(),
            inventory.model() == reserved_inputs(InventoryModel::empty(1024, 1024), inputs@.take(k as int), spec.input_buffer),
        decreases inputs@.len() - k,
    {
        proof {
            assert(inputs@.take(k + 1).drop_last() =~= inputs@.take(k as int));
        }
        inventory.reserve(inputs[k].0, spec.input_buffer);
        k = k + 1;
    }
    assert(inputs@.take(k as int) =~= inputs@);
    inventory.reserve(spec.product_item, spec.output_buffer);
    let ghost base = inventory.model();
    let mut k: usize = 0;
    while k < spec.starting_items.len()
        invariant
            content.wf(),
            k <= spec.starting_items@.len(),
            base == reserved_inputs(InventoryModel::empty(1024, 1024), content.def(spec.product_item).ingredients@, spec.input_buffer)
                .with_reservation(spec.product_item, spec.output_buffer),
            stocked(*content, base, spec.starting_items@.take(k as int)) == Some(inventory.model()),
        decreases spec.starting_items@.len() - k,
    {
        let (item, quantity) = spec.starting_items[k];
        proof {
            let items = spec.starting_items@;
            assert(items.take(k + 1).drop_last() =~= items.take(k as int));
        }
        inventory.reserve(item, quantity);
        if inventory.max_insertable(content, item, quantity) != quantity {
            proof {
                lemma_stocked_none_extends(*content, base, spec.starting_items@, k + 1);
            }
            return false;
        }
        inventory.insert_up_to(content, item, quantity);
        k = k + 1;
    }
    assert(spec.starting_items@.take(k as int) =~= spec.starting_items@);
    true
}

/// Stock that does not fit at some item does not fit as a whole.
proof fn lemma_stocked_none_extends(content: ContentDatabase, m: InventoryModel, items: Seq<(ItemId, u32)>, n: int)
    requires
        0 <= n <= items.len(),
        stocked(content, m, items.take(n)) is None,
    ensures
        stocked(content, m, items) is None,
{
    if stocked(content, m, items) is Some {
        lemma_stocked_prefix(content, m, items, n);
    }
}

/// Whether a generator's initial fuel fits its fuel inventory.
fn generator_fuel_fits(content: &ContentDatabase, spec: &crate::content::GeneratorSpec) -> (r: bool)
    requires
        content.wf(),
    ensures
        r == fuel_fits(*content, *spec, InventoryModel::empty(64, 64)),
{
    match spec.fuel_item {
        Some(fuel) => {
            let mut inventory = Inventory::new(64, 64);
            inventory.reserve(fuel, spec.fuel_buffer);
            proof {
                assert(inventory.model() == InventoryModel::empty(64, 64).with_reservation(fuel, spec.fuel_buffer));
            }
            inventory.max_insertable(content, fuel, spec.initial_fuel) == spec.initial_fuel
        },
        None => true,
    }
}

/// Whether a scenario's objects are numbered within `u16` and its starting
/// stock and generator fuel fit their inventories.
fn scenario_fits_exec(content: &ContentDatabase, scenario: &ScenarioDefinition) -> (r: bool)
    requires
        content.wf(),
    ensures
        r == scenario_fits(*content, *scenario),
{
    if scenario.sources.len() > 0x1_0000 || scenario.factories.len() > 0x1_0000 || scenario.radars.len() > 0x1_0000
        || scenario.build_sites.len() > 0x1_0000 || scenario.hauler_count > 0x1_0000 {
        return false;
    }
    let mut k: usize = 0;
    while k < scenario.factories.len()
        invariant
            content.wf(),
            k <= scenario.factories@.len(),
            forall|j: int| 0 <= j < k ==> (#[trigger] factory_start(*content, scenario.factories@[j])) is Some,
        decreases scenario.factories@.len() - k,
    {
        if !factory_start_fits(content, &scenario.factories[k]) {
            return false;
        }
        k = k + 1;
    }
    match &scenario.power {
        Some(power) => {
            if power.generators.len() >= 65535 {
                return false;
            }
            let mut k: usize = 0;
            while k < power.generators.len()
                invariant
                    content.wf(),
                    scenario.power == Some(*power),
                    k <= power.generators@.len(),
                    forall|j: int| 0 <= j < k ==> fuel_fits(*content, #[trigger] power.generators@[j], InventoryModel::empty(64, 64)),
                decreases power.generators@.len() - k,
            {
                if !generator_fuel_fits(content, &power.generators[k]) {
                    return false;
                }
                k = k + 1;
            }
            true
        },
        None => true,
    }
}

impl GameState {
    /// Whether every scenario of the content with this id can be set up: its
    /// objects are numbered within `u16`, and its starting stock and generator
    /// fuel fit their inventories. A simulation of a scenario that does not
    /// fit cannot start.
    pub fn fits(content: &ContentDatabase, scenario_id: ScenarioId) -> (r: bool)
        requires
            content.wf(),
        ensures
            r == forall|k: int| 0 <= k < content.scenarios@.len() && content.scenarios@[k].id == scenario_id
                ==> scenario_fits(*content, #[trigger] content.scenarios@[k]),
    {
        let mut k: usize = 0;
        while k < content.scenarios.len()
            invariant
                content.wf(),
                k <= content.scenarios@.len(),
                forall|j: int| 0 <= j < k && content.scenarios@[j].id == scenario_id
                    ==> scenario_fits(*content, #[trigger] content.scenarios@[j]),
            decreases content.scenarios@.len() - k,
        {
            if content.scenarios[k].id == scenario_id && !scenario_fits_exec(content, &content.scenarios[k]) {
                return false;
            }
            k = k + 1;
        }
        true
    }
}

/// A factory of a scenario, numbered `index`.
fn build_factory(content: &ContentDatabase, spec: &FactorySpec, index: u16) -> (r: FactoryNode)
    requires
        content.wf(),
        factory_start(*content, *spec) is Some,
    ensures
        r.node == NodeId::Factory(index),
        r.input_buffer == spec.input_buffer,
        Some(r.production.inventory.model()) == factory_start(*content, *spec),
        r.production.recipe.output_item == spec.product_item,
        r.production.wf(),
{
    let product = content.item(spec.product_item);
    let recipe = RecipeRuntime {
        inputs: copy_items(&product.ingredients),
        output_item: product.id,
        output_quantity: product.craft_output,
        craft_time: if product.craft_time < 1 { 1 } else { product.craft_time },
    };
    proof {
        crate::content::lemma_item_rank_bijective(spec.product_item);
        assert(content.items@[crate::content::item_rank(spec.product_item) as int] == content.def(spec.product_item));
    }
    let inventory = factory_inventory(content, spec);
    let production = FactoryProduction::new(inventory, recipe, spec.output_buffer);
    FactoryNode::new(NodeId::Factory(index), production, spec.input_buffer)
}

/// The factories of a scenario, or the product of the first one whose recipe
/// is missing.
fn build_factories(content: &ContentDatabase, scenario: &ScenarioDefinition) -> (r: Result<Vec<FactoryNode>, ItemId>)
    requires
        content.wf(),
        scenario.factories@.len() <= 0x1_0000,
        forall|k: int| 0 <= k < scenario.factories@.len() ==> (#[trigger] factory_start(*content, scenario.factories@[k])) is Some,
    ensures
        r is Err <==> first_missing_recipe(*content, *scenario) is Some,
        r matches Err(item) ==> item == scenario.factories@[first_missing_recipe(*content, *scenario)->0].product_item,
        r matches Ok(factories) ==> {
            &&& factories@.len() == scenario.factories@.len()
            &&& forall|j: int| 0 <= j < factories@.len() ==> {
                &&& (#[trigger] factories@[j]).node == NodeId::Factory(j as u16)
                &&& factories@[j].input_buffer == scenario.factories@[j].input_buffer
                &&& Some(factories@[j].production.inventory.model()) == factory_start(*content, scenario.factories@[j])
                &&& factories@[j].production.recipe.output_item == scenario.factories@[j].product_item
                &&& factories@[j].production.wf()
            }
        },
{
    let mut factories: Vec<FactoryNode> = Vec::new();
    let mut k: usize = 0;
    while k < scenario.factories.len()
        invariant
            content.wf(),
            scenario.factories@.len() <= 0x1_0000,
            forall|k: int| 0 <= k < scenario.factories@.len() ==> (#[trigger] factory_start(*content, scenario.factories@[k])) is Some,
            k <= scenario.factories@.len(),
            factories@.len() == k,
            forall|j: int| 0 <= j < k ==> !recipe_missing(*content, #[trigger] scenario.factories@[j]),
            forall|j: int| 0 <= j < k ==> {
                &&& (#[trigger] factories@[j]).node == NodeId::Factory(j as u16)
                &&& factories@[j].input_buffer == scenario.factories@[j].input_buffer
                &&& Some(factories@[j].production.inventory.model()) == factory_start(*content, scenario.factories@[j])
                &&& factories@[j].production.recipe.output_item == scenario.factories@[j].product_item
                &&& factories@[j].production.wf()
            },
        decreases scenario.factories@.len() - k,
    {
        let spec = &scenario.factories[k];
        let product = content.item(spec.product_item);
        if product.ingredients.len() == 0 && !product.create_from_nothing {
            proof {
                let s = *scenario;
                assert(recipe_missing(*content, s.factories@[k as int]));
                let f = choose|m: int| 0 <= m < s.factories@.len() && recipe_missing(*content, s.factories@[m])
                    && forall|j: int| 0 <= j < m ==> !recipe_missing(*content, s.factories@[j]);
                if f < k {
                    assert(!recipe_missing(*content, s.factories@[f]));
                } else if f > k {
                    assert(!recipe_missing(*content, s.factories@[k as int]));
                }
                assert(first_missing_recipe(*content, s) == Some(k as int));
            }
            return Err(product.id);
        }
        factories.push(build_factory(content, spec, k as u16));
        k = k + 1;
    }
    Ok(factories)
}

/// Stock that fits fits item by item.
proof fn lemma_stocked_prefix(content: ContentDatabase, m: InventoryModel, items: Seq<(ItemId, u32)>, n: int)
    requires
        0 <= n <= items.len(),
        stocked(content, m, items) is Some,
    ensures
        stocked(content, m, items.take(n)) is Some,
    decreases items.len(),
{
    if n < items.len() {
        assert(items.drop_last().take(n) =~= items.take(n));
        lemma_stocked_prefix(content, m, items.drop_last(), n);
    } else {
        assert(items.take(n) =~= items);
    }
}

impl GameState {
    /// The invariant of a running simulation: a consistent catalog and
    /// priority policy, one battery per owner, routes that fit the grid, and
    /// recipes listed in item order.
    pub closed spec fn wf(self) -> bool {
        &&& self.content.wf()
        &&& self.dispatch_policy.wf()
        &&& self.world.batteries.wf()
        &&& self.world.topology.cache_wf()
        &&& crate::topology::generators_below(self.world.topology.nodes@, generator_count(self.world))
        &&& forall|k: int| 0 <= k < self.world.factories@.len() ==> (#[trigger] self.world.factories@[k]).production.wf()
    }

    /// The world being simulated.
    pub closed spec fn state(self) -> WorldState {
        self.world
    }

    /// The catalog the simulation runs on.
    pub closed spec fn catalog(self) -> ContentDatabase {
        self.content
    }

    /// The delivery priorities set for this simulation.
    pub closed spec fn policy(self) -> DispatchPolicy {
        self.dispatch_policy
    }

    /// The run's counters.
    pub closed spec fn counters(self) -> RunMetrics {
        self.metrics
    }

    /// A simulation of a scenario of the content, or why it cannot run.
    pub fn new(content: ContentDatabase, scenario_id: ScenarioId) -> (r: Result<Self, SimulationError>)
        requires
            content.wf(),
            forall|k: int| 0 <= k < content.scenarios@.len() && content.scenarios@[k].id == scenario_id
                ==> scenario_fits(content, #[trigger] content.scenarios@[k]),
        ensures
            r is Err <==> scenario_error(content, scenario_id) is Some,
            r matches Err(e) ==> scenario_error(content, scenario_id) == Some(e),
            r matches Ok(g) ==> {
                let s = content.scenarios@[first_scenario(content, scenario_id)->0];
                &&& g.wf()
                &&& g.catalog() == content
                &&& forall|d: NodeId, i: ItemId| #[trigger] g.policy().get(d, i) is None
                &&& g.counters().is_zero()
                &&& g.state().tick == 0
                &&& g.state().sources@.len() == s.sources@.len()
                &&& g.state().factories@.len() == s.factories@.len()
                &&& g.state().haulers@.len() == s.hauler_count
                &&& g.state().radars@.len() == s.radars@.len()
                &&& g.state().structures@.len() == 0
                &&& g.state().queued_mutations@.len() == 0
                &&& g.state().power is Some == s.power is Some
                &&& forall|k: int| 0 <= k < g.state().sources@.len() ==> {
                    &&& (#[trigger] g.state().sources@[k]).node == NodeId::Source(k as u16)
                    &&& g.state().sources@[k].item == s.sources@[k].item
                    &&& g.state().sources@[k].deployed == !s.sources@[k].requires_deployment
                }
                &&& forall|k: int| 0 <= k < g.state().factories@.len() ==> {
                    &&& (#[trigger] g.state().factories@[k]).node == NodeId::Factory(k as u16)
                    &&& g.state().factories@[k].input_buffer == s.factories@[k].input_buffer
                    &&& Some(g.state().factories@[k].production.inventory.model()) == factory_start(content, s.factories@[k])
                    &&& g.state().factories@[k].production.recipe.output_item == s.factories@[k].product_item
                }
                &&& forall|k: int| 0 <= k < g.state().haulers@.len() ==> (#[trigger] g.state().haulers@[k]).id == k
                &&& forall|k: int| 0 <= k < g.state().haulers@.len() ==> {
                    &&& (#[trigger] g.state().haulers@[k]).position == (if k < s.layout.hauler_positions@.len() {
                        NodeId::Transit(crate::topology::cell_of(s.layout.hauler_positions@[k]))
                    } else {
                        NodeId::Road
                    })
                    &&& g.state().haulers@[k].carry_limit == s.hauler_capacity
                    &&& g.state().haulers@[k].dispatch == DispatchReceiverState::Unassigned
                }
                &&& forall|k: int| 0 <= k < g.state().radars@.len() ==> {
                    &&& (#[trigger] g.state().radars@[k]).node == NodeId::Radar(k as u16)
                    &&& g.state().radars@[k].deployment_item == s.radars@[k].deployment_item
                    &&& g.state().radars@[k].target_item == s.radars@[k].target_item
                }
                &&& g.state().topology.lays_out(s)
                &&& s.power is None ==> g.state().batteries.entries().len() == 0
                &&& s.power matches Some(p) ==> {
                    let o = p.object_batteries;
                    &&& g.state().power matches Some(grid) && grid.generators@.len() == p.generators@.len()
                        && forall|k: int| 0 <= k < grid.generators@.len() ==> {
                            &&& (#[trigger] grid.generators@[k]).node == NodeId::Generator(k as u16)
                            &&& grid.generators@[k].spec == p.generators@[k]
                            &&& g.state().batteries.entries().contains(
                                made_battery(BatteryOwner::Node(grid.generators@[k].node), 0, p.generators@[k].grid_capacity))
                        }
                    &&& forall|k: int| 0 <= k < g.state().sources@.len() ==> g.state().batteries.entries().contains(
                        object_battery(BatteryOwner::Node((#[trigger] g.state().sources@[k]).node), o.source_capacity, o.start_charged))
                    &&& forall|k: int| 0 <= k < g.state().factories@.len() ==> g.state().batteries.entries().contains(
                        object_battery(BatteryOwner::Node((#[trigger] g.state().factories@[k]).node), o.factory_capacity, o.start_charged))
                    &&& forall|k: int| 0 <= k < g.state().haulers@.len() ==> g.state().batteries.entries().contains(
                        object_battery(BatteryOwner::Hauler((#[trigger] g.state().haulers@[k]).id), o.hauler_capacity, o.start_charged))
                }
            },
    {
        let index = match content.scenario_index(scenario_id) {
            Some(k) => k,
            None => {
                return Err(SimulationError::UnknownScenario(scenario_id));
            },
        };
        proof {
            let c = content;
            assert(0 <= index < c.scenarios@.len() && c.scenarios@[index as int].id == scenario_id
                && forall|j: int| 0 <= j < index ==> c.scenarios@[j].id != scenario_id);
            let f = choose|k: int| 0 <= k < c.scenarios@.len() && c.scenarios@[k].id == scenario_id
                && forall|j: int| 0 <= j < k ==> c.scenarios@[j].id != scenario_id;
            if f < index {
                assert(c.scenarios@[f].id != scenario_id);
            } else if f > index {
                assert(c.scenarios@[index as int].id != scenario_id);
            }
            assert(first_scenario(c, scenario_id) == Some(index as int));
        }
        let scenario = &content.scenarios[index];
        assert(scenario_fits(content, *scenario));
        if scenario.factories.len() == 0 {
            return Err(SimulationError::ScenarioMissingFactories(scenario_id));
        }
        let generator_count: usize = match &scenario.power {
            Some(power) => power.generators.len(),
            None => 0,
        };
        if scenario.sources.len() != scenario.layout.source_positions.len()
            || scenario.factories.len() != scenario.layout.factory_positions.len()
            || (scenario.layout.hauler_positions.len() != 0 && scenario.hauler_count as usize != scenario.layout.hauler_positions.len())
            || generator_count != scenario.layout.generator_positions.len()
        {
            return Err(SimulationError::ScenarioLayoutMismatch(scenario_id));
        }
        let factories = match build_factories(&content, scenario) {
            Ok(factories) => factories,
            Err(item) => {
                return Err(SimulationError::RecipeMissingIngredients(item));
            },
        };
        let mut sources: Vec<SourceNode> = Vec::new();
        let mut k: usize = 0;
        while k < scenario.sources.len()
            invariant
                content.wf(),
                scenario_fits(content, *scenario),
                k <= scenario.sources@.len(),
                sources@.len() == k,
                forall|j: int| 0 <= j < k ==> {
                    &&& (#[trigger] sources@[j]).node == NodeId::Source(j as u16)
                    &&& sources@[j].item == scenario.sources@[j].item
                    &&& sources@[j].deployed == !scenario.sources@[j].requires_deployment
                },
            decreases scenario.sources@.len() - k,
        {
            let spec = &scenario.sources[k];
            let mining = MiningExtractor::for_item(&content, spec.item, spec.mining_speed, spec.deposit);
            sources.push(SourceNode::new(NodeId::Source(k as u16), Inventory::new(1024, 1024), spec.item, mining, !spec.requires_deployment));
            k = k + 1;
        }
        let mut haulers: Vec<Hauler> = Vec::new();
        let mut h: u32 = 0;
        while h < scenario.hauler_count
            invariant
                scenario_fits(content, *scenario),
                h <= scenario.hauler_count,
                haulers@.len() == h,
                forall|j: int| 0 <= j < h ==> (#[trigger] haulers@[j]).id == j,
                forall|j: int| 0 <= j < h ==> {
                    &&& (#[trigger] haulers@[j]).position == (if j < scenario.layout.hauler_positions@.len() {
                        NodeId::Transit(crate::topology::cell_of(scenario.layout.hauler_positions@[j]))
                    } else {
                        NodeId::Road
                    })
                    &&& haulers@[j].carry_limit == scenario.hauler_capacity
                    &&& haulers@[j].dispatch == DispatchReceiverState::Unassigned
                },
            decreases scenario.hauler_count - h,
        {
            let position = if (h as usize) < scenario.layout.hauler_positions.len() {
                let p = scenario.layout.hauler_positions[h as usize];
                NodeId::Transit(GridPosition { x: p.x, y: p.y })
            } else {
                NodeId::Road
            };
            let cargo = Inventory::new(scenario.hauler_weight_capacity, scenario.hauler_volume_capacity);
            haulers.push(Hauler::new(h as u16, cargo, position, scenario.hauler_capacity));
            h = h + 1;
        }
        let mut radars: Vec<DeploymentRadar> = Vec::new();
        let mut k: usize = 0;
        while k < scenario.radars.len()
            invariant
                scenario_fits(content, *scenario),
                k <= scenario.radars@.len(),
                radars@.len() == k,
                forall|j: int| 0 <= j < k ==> {
                    &&& (#[trigger] radars@[j]).node == NodeId::Radar(j as u16)
                    &&& radars@[j].deployment_item == scenario.radars@[j].deployment_item
                    &&& radars@[j].target_item == scenario.radars@[j].target_item
                },
            decreases scenario.radars@.len() - k,
        {
            radars.push(DeploymentRadar::new(NodeId::Radar(k as u16), &scenario.radars[k]));
            k = k + 1;
        }
        let power: Option<PowerGrid> = match &scenario.power {
            Some(spec) => Some(PowerGrid::new(&content, spec.duplicate())),
            None => None,
        };
        let topology = Topology::from_scenario(scenario);
        let batteries = match &power {
            Some(grid) => match &scenario.power {
                Some(spec) => object_batteries(&sources, &factories, &haulers, grid, &spec.object_batteries),
                None => BatteryBank::new(),
            },
            None => BatteryBank::new(),
        };
        let world = WorldState {
            tick: 0,
            scenario: scenario.clone(),
            sources,
            haulers,
            factories,
            radars,
            structures: Vec::new(),
            power,
            batteries,
            power_lines: Vec::new(),
            generator_power_lines: Vec::new(),
            topology,
            queued_mutations: Vec::new(),
        };
        Ok(GameState { world, content, dispatch_policy: DispatchPolicy::default(), metrics: RunMetrics::default() })
    }
}

/// The battery a new game gives an object: charged to its capacity where
/// the scenario starts its objects charged, empty otherwise.
pub open spec fn object_battery(owner: BatteryOwner, capacity: u32, charged: bool) -> Battery {
    made_battery(owner, if charged { capacity } else { 0 }, capacity)
}

/// The batteries of a powered world's objects: one for each deposit, factory
/// and hauler, and an empty one for each generator.
fn object_batteries(
    sources: &Vec<SourceNode>,
    factories: &Vec<FactoryNode>,
    haulers: &Vec<Hauler>,
    grid: &PowerGrid,
    objects: &crate::content::ObjectBatterySpec,
) -> (r: BatteryBank)
    requires
        sources@.len() <= 0x1_0000,
        factories@.len() <= 0x1_0000,
        haulers@.len() <= 0x1_0000,
        grid.generators@.len() <= 0x1_0000,
        forall|k: int| 0 <= k < sources@.len() ==> (#[trigger] sources@[k]).node == NodeId::Source(k as u16),
        forall|k: int| 0 <= k < factories@.len() ==> (#[trigger] factories@[k]).node == NodeId::Factory(k as u16),
        forall|k: int| 0 <= k < haulers@.len() ==> (#[trigger] haulers@[k]).id == k,
        forall|k: int| 0 <= k < grid.generators@.len() ==> (#[trigger] grid.generators@[k]).node == NodeId::Generator(k as u16),
    ensures
        r.wf(),
        forall|k: int| 0 <= k < sources@.len() ==> r.entries().contains(
            object_battery(BatteryOwner::Node((#[trigger] sources@[k]).node), objects.source_capacity, objects.start_charged)),
        forall|k: int| 0 <= k < factories@.len() ==> r.entries().contains(
            object_battery(BatteryOwner::Node((#[trigger] factories@[k]).node), objects.factory_capacity, objects.start_charged)),
        forall|k: int| 0 <= k < haulers@.len() ==> r.entries().contains(
            object_battery(BatteryOwner::Hauler((#[trigger] haulers@[k]).id), objects.hauler_capacity, objects.start_charged)),
        forall|k: int| 0 <= k < grid.generators@.len() ==> r.entries().contains(
            made_battery(BatteryOwner::Node((#[trigger] grid.generators@[k]).node), 0, grid.generators@[k].spec.grid_capacity)),
{
    let mut batteries = BatteryBank::new();
    let mut k: usize = 0;
    while k < sources.len()
        invariant
            batteries.wf(),
            k <= sources@.len(),
            sources@.len() <= 0x1_0000,
            forall|k: int| 0 <= k < sources@.len() ==> (#[trigger] sources@[k]).node == NodeId::Source(k as u16),
            forall|j: int| 0 <= j < k ==> batteries.entries().contains(
                object_battery(BatteryOwner::Node((#[trigger] sources@[j]).node), objects.source_capacity, objects.start_charged)),
        decreases sources@.len() - k,
    {
        let owner = BatteryOwner::Node(sources[k].node);
        let energy = if objects.start_charged { objects.source_capacity } else { 0 };
        batteries.insert(Battery::new(owner, energy, objects.source_capacity));
        proof {
            assert forall|j: int| 0 <= j < k + 1 implies batteries.entries().contains(
                object_battery(BatteryOwner::Node((#[trigger] sources@[j]).node), objects.source_capacity, objects.start_charged)) by {
                if j < k {
                    assert(sources@[j].node != sources@[k as int].node);
                }
            }
        }
        k = k + 1;
    }
    let mut k: usize = 0;
    while k < factories.len()
        invariant
            batteries.wf(),
            k <= factories@.len(),
            factories@.len() <= 0x1_0000,
            forall|k: int| 0 <= k < sources@.len() ==> (#[trigger] sources@[k]).node == NodeId::Source(k as u16),
            forall|k: int| 0 <= k < factories@.len() ==> (#[trigger] factories@[k]).node == NodeId::Factory(k as u16),
            forall|j: int| 0 <= j < sources@.len() ==> batteries.entries().contains(
                object_battery(BatteryOwner::Node((#[trigger] sources@[j]).node), objects.source_capacity, objects.start_charged)),
            forall|j: int| 0 <= j < k ==> batteries.entries().contains(
                object_battery(BatteryOwner::Node((#[trigger] factories@[j]).node), objects.factory_capacity, objects.start_charged)),
        decreases factories@.len() - k,
    {
        let owner = BatteryOwner::Node(factories[k].node);
        let energy = if objects.start_charged { objects.factory_capacity } else { 0 };
        batteries.insert(Battery::new(owner, energy, objects.factory_capacity));
        proof {
            assert forall|j: int| 0 <= j < k + 1 implies batteries.entries().contains(
                object_battery(BatteryOwner::Node((#[trigger] factories@[j]).node), objects.factory_capacity, objects.start_charged)) by {
                if j < k {
                    assert(factories@[j].node != factories@[k as int].node);
                }
            }
            assert forall|j: int| 0 <= j < sources@.len() implies batteries.entries().contains(
                object_battery(BatteryOwner::Node((#[trigger] sources@[j]).node), objects.source_capacity, objects.start_charged)) by {
                assert(sources@[j].node != factories@[k as int].node);
            }
        }
        k = k + 1;
    }
    let mut k: usize = 0;
    while k < haulers.len()
        invariant
            batteries.wf(),
            k <= haulers@.len(),
            haulers@.len() <= 0x1_0000,
            forall|k: int| 0 <= k < haulers@.len() ==> (#[trigger] haulers@[k]).id == k,
            forall|j: int| 0 <= j < sources@.len() ==> batteries.entries().contains(
                object_battery(BatteryOwner::Node((#[trigger] sources@[j]).node), objects.source_capacity, objects.start_charged)),
            forall|j: int| 0 <= j < factories@.len() ==> batteries.entries().contains(
                object_battery(BatteryOwner::Node((#[trigger] factories@[j]).node), objects.factory_capacity, objects.start_charged)),
            forall|j: int| 0 <= j < k ==> batteries.entries().contains(
                object_battery(BatteryOwner::Hauler((#[trigger] haulers@[j]).id), objects.hauler_capacity, objects.start_charged)),
        decreases haulers@.len() - k,
    {
        let owner = BatteryOwner::Hauler(haulers[k].id);
        let energy = if objects.start_charged { objects.hauler_capacity } else { 0 };
        batteries.insert(Battery::new(owner, energy, objects.hauler_capacity));
        proof {
            assert forall|j: int| 0 <= j < k + 1 implies batteries.entries().contains(
                object_battery(BatteryOwner::Hauler((#[trigger] haulers@[j]).id), objects.hauler_capacity, objects.start_charged)) by {
                if j < k {
                    assert(haulers@[j].id != haulers@[k as int].id);
                }
            }
            assert forall|j: int| 0 <= j < sources@.len() implies batteries.entries().contains(
                object_battery(BatteryOwner::Node((#[trigger] sources@[j]).node), objects.source_capacity, objects.start_charged)) by {}
            assert forall|j: int| 0 <= j < factories@.len() implies batteries.entries().contains(
                object_battery(BatteryOwner::Node((#[trigger] factories@[j]).node), objects.factory_capacity, objects.start_charged)) by {}
        }
        k = k + 1;
    }
    let mut k: usize = 0;
    while k < grid.generators.len()
        invariant
            batteries.wf(),
            k <= grid.generators@.len(),
            grid.generators@.len() <= 0x1_0000,
            forall|k: int| 0 <= k < sources@.len() ==> (#[trigger] sources@[k]).node == NodeId::Source(k as u16),
            forall|k: int| 0 <= k < factories@.len() ==> (#[trigger] factories@[k]).node == NodeId::Factory(k as u16),
            forall|k: int| 0 <= k < grid.generators@.len() ==> (#[trigger] grid.generators@[k]).node == NodeId::Generator(k as u16),
            forall|j: int| 0 <= j < sources@.len() ==> batteries.entries().contains(
                object_battery(BatteryOwner::Node((#[trigger] sources@[j]).node), objects.source_capacity, objects.start_charged)),
            forall|j: int| 0 <= j < factories@.len() ==> batteries.entries().contains(
                object_battery(BatteryOwner::Node((#[trigger] factories@[j]).node), objects.factory_capacity, objects.start_charged)),
            forall|j: int| 0 <= j < haulers@.len() ==> batteries.entries().contains(
                object_battery(BatteryOwner::Hauler((#[trigger] haulers@[j]).id), objects.hauler_capacity, objects.start_charged)),
            forall|j: int| 0 <= j < k ==> batteries.entries().contains(
                made_battery(BatteryOwner::Node((#[trigger] grid.generators@[j]).node), 0, grid.generators@[j].spec.grid_capacity)),
        decreases grid.generators@.len() - k,
    {
        let owner = BatteryOwner::Node(grid.generators[k].node);
        batteries.insert(Battery::new(owner, 0, grid.generators[k].spec.grid_capacity));
        proof {
            assert forall|j: int| 0 <= j < k + 1 implies batteries.entries().contains(
                made_battery(BatteryOwner::Node((#[trigger] grid.generators@[j]).node), 0, grid.generators@[j].spec.grid_capacity)) by {
                if j < k {
                    assert(grid.generators@[j].node != grid.generators@[k as int].node);
                }
            }
            assert forall|j: int| 0 <= j < sources@.len() implies batteries.entries().contains(
                object_battery(BatteryOwner::Node((#[trigger] sources@[j]).node), objects.source_capacity, objects.start_charged)) by {
                assert(sources@[j].node != grid.generators@[k as int].node);
            }
            assert forall|j: int| 0 <= j < factories@.len() implies batteries.entries().contains(
                object_battery(BatteryOwner::Node((#[trigger] factories@[j]).node), objects.factory_capacity, objects.start_charged)) by {
                assert(factories@[j].node != grid.generators@[k as int].node);
            }
            assert forall|j: int| 0 <= j < haulers@.len() implies batteries.entries().contains(
                object_battery(BatteryOwner::Hauler((#[trigger] haulers@[j]).id), objects.hauler_capacity, objects.start_charged)) by {}
        }
        k = k + 1;
    }
    batteries
}

impl GameState {
    /// The iron-bars scenario of the starter content.
    pub fn starter_iron_bars() -> (r: Self)
        ensures
            r.wf(),
            r.state().tick == 0,
            forall|item: ItemId| #[trigger] r.catalog().def(item).id == item
                && crate::starter::starter_definition(r.catalog().def(item)),
            r.catalog().scenarios@.len() == crate::content::SCENARIO_COUNT,
            forall|d: NodeId, i: ItemId| #[trigger] r.policy().get(d, i) is None,
            r.counters().is_zero(),
            r.state().sources@.len() == 1,
            r.state().sources@[0].node == NodeId::Source(0),
            r.state().sources@[0].item == r.catalog().scenarios@[6].sources@[0].item,
            r.state().factories@.len() == 1,
            r.state().factories@[0].node == NodeId::Factory(0),
            r.state().factories@[0].production.recipe.output_item == crate::content::IRON_BARS,
            r.state().haulers@.len() == 1,
            r.state().haulers@[0].id == 0,
            r.state().haulers@[0].position == NodeId::Road,
            r.state().radars@.len() == 0,
            r.state().structures@.len() == 0,
            r.state().power is None,
            r.state().batteries.entries().len() == 0,
            r.state().topology.lays_out(r.catalog().scenarios@[6]),
    {
        let content = ContentDatabase::starter();
        let ghost rank = crate::content::scenario_rank(IRON_BARS_SCENARIO) as int;
        proof {
            let c = content;
            assert(rank == 6);
            assert(c.scenarios@[rank].id == IRON_BARS_SCENARIO);
            assert forall|k: int| 0 <= k < c.scenarios@.len() && c.scenarios@[k].id == IRON_BARS_SCENARIO
                implies scenario_fits(c, #[trigger] c.scenarios@[k]) by {
                assert(crate::content::scenario_rank(c.scenarios@[k].id) == k);
                assert(k == rank);
                let s = c.scenarios@[k];
                assert(s.factories@[0].starting_items@ =~= Seq::<(ItemId, u32)>::empty());
                assert(factory_start(c, s.factories@[0]) is Some);
            }
            let f = choose|k: int| 0 <= k < c.scenarios@.len() && c.scenarios@[k].id == IRON_BARS_SCENARIO
                && forall|j: int| 0 <= j < k ==> c.scenarios@[j].id != IRON_BARS_SCENARIO;
            assert(forall|j: int| 0 <= j < rank ==> #[trigger] crate::content::scenario_rank(c.scenarios@[j].id) == j);
            assert(forall|j: int| 0 <= j < rank ==> c.scenarios@[j].id != IRON_BARS_SCENARIO);
            assert(crate::content::scenario_rank(c.scenarios@[f].id) == f);
            assert(first_scenario(c, IRON_BARS_SCENARIO) == Some(rank));
            let s = c.scenarios@[rank];
            assert(!recipe_missing(c, s.factories@[0]));
            assert(first_missing_recipe(c, s) is None);
            assert(scenario_error(c, IRON_BARS_SCENARIO) is None);
        }
        let r = Self::new(content, IRON_BARS_SCENARIO);
        assert(r is Ok);
        r.unwrap()
    }
}

impl GameState {
    /// The catalog the simulation runs on.
    pub fn content(&self) -> (r: &ContentDatabase)
        ensures
            *r == self.catalog(),
    {
        &self.content
    }

    /// The priority of deliveries of `item` to `destination`.
    pub fn dispatch_priority(&self, destination: NodeId, item: ItemId) -> (r: DispatchPriority)
        ensures
            r == match self.policy().get(destination, item) { Some(p) => p, None => DispatchPriority::normal() },
    {
        self.dispatch_policy.priority(destination, item)
    }

    /// Sets the priority of deliveries of `item` to `destination` and returns
    /// the one set before.
    pub fn set_dispatch_priority(&mut self, destination: NodeId, item: ItemId, priority: DispatchPriority) -> (r: Option<DispatchPriority>)
        requires
            old(self).wf(),
        ensures
            final(self).wf(),
            r == old(self).policy().get(destination, item),
            final(self).policy().get(destination, item) == (if priority == DispatchPriority::normal() { None } else { Some(priority) }),
            forall|d: NodeId, i: ItemId| !(d == destination && i == item) ==> final(self).policy().get(d, i) == old(self).policy().get(d, i),
            final(self).state() == old(self).state(),
            final(self).catalog() == old(self).catalog(),
            final(self).counters() == old(self).counters(),
    {
        self.dispatch_policy.set_priority(destination, item, priority)
    }

    /// Clears the priority of deliveries of `item` to `destination` and
    /// returns it.
    pub fn clear_dispatch_priority(&mut self, destination: NodeId, item: ItemId) -> (r: Option<DispatchPriority>)
        requires
            old(self).wf(),
        ensures
            final(self).wf(),
            r == old(self).policy().get(destination, item),
            final(self).policy().get(destination, item) is None,
            forall|d: NodeId, i: ItemId| !(d == destination && i == item) ==> final(self).policy().get(d, i) == old(self).policy().get(d, i),
            final(self).state() == old(self).state(),
            final(self).catalog() == old(self).catalog(),
            final(self).counters() == old(self).counters(),
    {
        self.dispatch_policy.clear_priority(destination, item)
    }

    /// The run's counters.
    pub fn metrics(&self) -> (r: RunMetricsSnapshot)
        ensures
            r.ticks == self.counters().ticks,
            r.mined.entries@ == nonzero_prefix(self.counters().mined@, ITEM_COUNT as nat),
            r.crafted.entries@ == nonzero_prefix(self.counters().crafted@, ITEM_COUNT as nat),
            r.dispatches_assigned == self.counters().dispatches_assigned,
            r.units_collected == self.counters().units_collected,
            r.units_delivered == self.counters().units_delivered,
            r.fuel_burned == self.counters().fuel_burned,
            r.energy_generated == self.counters().energy_generated,
            r.energy_balanced == self.counters().energy_balanced,
            r.energy_consumed == self.counters().energy_consumed,
            r.power_starvations == self.counters().power_starvations,
            r.deployments == self.counters().deployments,
            r.generators_deployed == self.counters().generators_deployed,
            r.world_deletions == self.counters().world_deletions,
            r.idle_ticks == self.counters().idle_ticks,
    {
        self.metrics.snapshot()
    }

    /// What the world reports now, with the events of the tick.
    pub fn snapshot(&self, events: Vec<String>) -> (r: TickSnapshot)
        ensures
            r.tick == self.state().tick,
            r.events@ == events@,
            r.scenario.id == self.state().scenario.id,
            r.topology.width == self.state().topology.width,
            r.topology.height == self.state().topology.height,
            r.topology.nodes@ == self.state().topology.nodes@,
            r.sources@.len() == self.state().sources@.len(),
            forall|k: int| 0 <= k < r.sources@.len() ==> {
                let s = self.state().sources@[k];
                &&& (#[trigger] r.sources@[k]).node == s.node
                &&& r.sources@[k].item == s.item
                &&& r.sources@[k].stockpile.shows(s.stockpile.model())
                &&& r.sources@[k].mining == s.mining
                &&& r.sources@[k].deployed == s.deployed
                &&& r.sources@[k].occupied_by == s.occupied_by
                &&& r.sources@[k].exhausted == s.exhausted
                &&& r.sources@[k].dispatch.intents@ == s.dispatch.intents@
                &&& r.sources@[k].alerts@ == s.alerts@
            },
            r.haulers@.len() == self.state().haulers@.len(),
            forall|k: int| 0 <= k < r.haulers@.len() ==> {
                let h = self.state().haulers@[k];
                &&& (#[trigger] r.haulers@[k]).id == h.id
                &&& r.haulers@[k].position == h.position
                &&& r.haulers@[k].cargo.shows(h.cargo.model())
                &&& r.haulers@[k].carry_limit == h.carry_limit
                &&& r.haulers@[k].target == h.target
                &&& r.haulers@[k].dispatch == h.dispatch
                &&& r.haulers@[k].alerts@ == h.alerts@
            },
            r.factories@.len() == self.state().factories@.len(),
            forall|k: int| 0 <= k < r.factories@.len() ==> {
                let f = self.state().factories@[k];
                &&& (#[trigger] r.factories@[k]).node == f.node
                &&& r.factories@[k].inventory.shows(f.production.inventory.model())
                &&& r.factories@[k].craft.inputs.entries@ == f.production.recipe.inputs@
                &&& r.factories@[k].craft.output_item == f.production.recipe.output_item
                &&& r.factories@[k].craft.output_quantity == f.production.recipe.output_quantity
                &&& r.factories@[k].craft.output_buffer == f.production.output_buffer
                &&& r.factories@[k].craft.craft_time == f.production.recipe.craft_time
                &&& r.factories@[k].craft.craft_progress == f.production.craft_progress
                &&& r.factories@[k].craft.crafting == f.production.crafting
                &&& r.factories@[k].craft.blocked == f.production.blocked
                &&& r.factories@[k].dispatch.intents@ == f.dispatch.intents@
                &&& r.factories@[k].alerts@ == f.alerts@
            },
            r.radars@.len() == self.state().radars@.len(),
            forall|k: int| 0 <= k < r.radars@.len() ==> {
                let d = self.state().radars@[k];
                &&& (#[trigger] r.radars@[k]).node == d.node
                &&& r.radars@[k].claimed_target == d.claimed_target
                &&& r.radars@[k].dispatch.intents@ == d.dispatch.intents@
            },
            r.structures@.len() == self.state().structures@.len(),
            r.power is Some == self.state().power is Some,
            r.power matches Some(p) ==> p.batteries@ == self.state().batteries.entries(),
    {
        let world = &self.world;
        let mut nodes: Vec<crate::topology::TopologyNode> = Vec::new();
        let mut k: usize = 0;
        while k < world.topology.nodes.len()
            invariant
                k <= world.topology.nodes@.len(),
                nodes@ == world.topology.nodes@.take(k as int),
            decreases world.topology.nodes@.len() - k,
        {
            nodes.push(world.topology.nodes[k]);
            k = k + 1;
            assert(nodes@ =~= world.topology.nodes@.take(k as int));
        }
        assert(world.topology.nodes@.take(k as int) =~= world.topology.nodes@);
        let mut lines: Vec<GeneratorPowerLine> = Vec::new();
        let mut k: usize = 0;
        while k < world.generator_power_lines.len()
            invariant
                k <= world.generator_power_lines@.len(),
            decreases world.generator_power_lines@.len() - k,
        {
            lines.push(world.generator_power_lines[k].duplicate());
            k = k + 1;
        }
        let topology = TopologySnapshot {
            width: world.topology.width,
            height: world.topology.height,
            nodes,
            blocked: position_set(&world.topology.blocked),
            obstacles: position_set(&world.topology.obstacles),
            power_lines: position_set(&world.power_lines),
            generator_power_lines: lines,
        };
        let mut sources: Vec<SourceSnapshot> = Vec::new();
        let mut k: usize = 0;
        while k < world.sources.len()
            invariant
                k <= world.sources@.len(),
                sources@.len() == k,
                forall|j: int| 0 <= j < k ==> {
                    let s = world.sources@[j];
                    &&& (#[trigger] sources@[j]).node == s.node
                    &&& sources@[j].item == s.item
                    &&& sources@[j].stockpile.shows(s.stockpile.model())
                    &&& sources@[j].mining == s.mining
                    &&& sources@[j].deployed == s.deployed
                    &&& sources@[j].occupied_by == s.occupied_by
                    &&& sources@[j].exhausted == s.exhausted
                    &&& sources@[j].dispatch.intents@ == s.dispatch.intents@
                    &&& sources@[j].alerts@ == s.alerts@
                },
            decreases world.sources@.len() - k,
        {
            sources.push(world.sources[k].snapshot());
            k = k + 1;
        }
        let mut haulers: Vec<HaulerSnapshot> = Vec::new();
        let mut k: usize = 0;
        while k < world.haulers.len()
            invariant
                k <= world.haulers@.len(),
                haulers@.len() == k,
                forall|j: int| 0 <= j < k ==> {
                    let h = world.haulers@[j];
                    &&& (#[trigger] haulers@[j]).id == h.id
                    &&& haulers@[j].position == h.position
                    &&& haulers@[j].cargo.shows(h.cargo.model())
                    &&& haulers@[j].carry_limit == h.carry_limit
                    &&& haulers@[j].target == h.target
                    &&& haulers@[j].dispatch == h.dispatch
                    &&& haulers@[j].alerts@ == h.alerts@
                },
            decreases world.haulers@.len() - k,
        {
            haulers.push(world.haulers[k].snapshot(&world.topology));
            k = k + 1;
        }
        let mut factories: Vec<FactorySnapshot> = Vec::new();
        let mut k: usize = 0;
        while k < world.factories.len()
            invariant
                k <= world.factories@.len(),
                factories@.len() == k,
                forall|j: int| 0 <= j < k ==> {
                    let f = world.factories@[j];
                    &&& (#[trigger] factories@[j]).node == f.node
                    &&& factories@[j].inventory.shows(f.production.inventory.model())
                    &&& factories@[j].craft.inputs.entries@ == f.production.recipe.inputs@
                    &&& factories@[j].craft.output_item == f.production.recipe.output_item
                    &&& factories@[j].craft.output_quantity == f.production.recipe.output_quantity
                    &&& factories@[j].craft.output_buffer == f.production.output_buffer
                    &&& factories@[j].craft.craft_time == f.production.recipe.craft_time
                    &&& factories@[j].craft.craft_progress == f.production.craft_progress
                    &&& factories@[j].craft.crafting == f.production.crafting
                    &&& factories@[j].craft.blocked == f.production.blocked
                    &&& factories@[j].dispatch.intents@ == f.dispatch.intents@
                    &&& factories@[j].alerts@ == f.alerts@
                },
            decreases world.factories@.len() - k,
        {
            factories.push(world.factories[k].snapshot());
            k = k + 1;
        }
        let mut radars: Vec<crate::radar::RadarSnapshot> = Vec::new();
        let mut k: usize = 0;
        while k < world.radars.len()
            invariant
                k <= world.radars@.len(),
                radars@.len() == k,
                forall|j: int| 0 <= j < k ==> {
                    let d = world.radars@[j];
                    &&& (#[trigger] radars@[j]).node == d.node
                    &&& radars@[j].claimed_target == d.claimed_target
                    &&& radars@[j].dispatch.intents@ == d.dispatch.intents@
                },
            decreases world.radars@.len() - k,
        {
            radars.push(world.radars[k].snapshot());
            k = k + 1;
        }
        let mut structures: Vec<StructureSnapshot> = Vec::new();
        let mut k: usize = 0;
        while k < world.structures.len()
            invariant
                k <= world.structures@.len(),
                structures@.len() == k,
            decreases world.structures@.len() - k,
        {
            structures.push(world.structures[k].duplicate());
            k = k + 1;
        }
        let power = match &world.power {
            Some(grid) => Some(grid.snapshot(&world.batteries)),
            None => None,
        };
        TickSnapshot {
            tick: world.tick,
            scenario: ScenarioSnapshot { id: world.scenario.id, name: world.scenario.name.clone() },
            topology,
            sources,
            haulers,
            factories,
            radars,
            structures,
            power,
            events,
        }
    }
}

/// The starter content.
pub fn sample_content() -> (r: ContentDatabase)
    ensures
        r.wf(),
{
    ContentDatabase::starter()
}

/// The iron-bars simulation of the starter content.
pub fn sample_game_state() -> (r: GameState)
    ensures
        r.wf(),
        r.state().tick == 0,
{
    GameState::starter_iron_bars()
}

/// The number of generators of a world.
pub open spec fn generator_count(w: WorldState) -> int {
    match w.power {
        Some(p) => p.generators@.len() as int,
        None => 0,
    }
}

/// Two worlds have the same objects at the same places: the same tick, grid,
/// object counts and node ids.
pub open spec fn same_objects(a: WorldState, b: WorldState) -> bool {
    &&& a.tick == b.tick
    &&& a.topology.width == b.topology.width
    &&& a.topology.height == b.topology.height
    &&& a.topology.nodes@ == b.topology.nodes@
    &&& a.topology.blocked@ == b.topology.blocked@
    &&& a.topology.obstacles@ == b.topology.obstacles@
    &&& a.sources@.len() == b.sources@.len()
    &&& a.factories@.len() == b.factories@.len()
    &&& a.haulers@.len() == b.haulers@.len()
    &&& a.radars@.len() == b.radars@.len()
    &&& a.structures@.len() == b.structures@.len()
    &&& a.power is Some == b.power is Some
    &&& generator_count(a) == generator_count(b)
    &&& forall|k: int| 0 <= k < a.sources@.len() ==> (#[trigger] a.sources@[k]).node == b.sources@[k].node
    &&& forall|k: int| 0 <= k < a.factories@.len() ==> (#[trigger] a.factories@[k]).node == b.factories@[k].node
    &&& forall|k: int| 0 <= k < a.haulers@.len() ==> (#[trigger] a.haulers@[k]).id == b.haulers@[k].id
}

/// Two deposits agree on everything but their alerts.
pub open spec fn same_source_state(a: SourceNode, b: SourceNode) -> bool {
    &&& a.node == b.node
    &&& a.stockpile == b.stockpile
    &&& a.item == b.item
    &&& a.mining == b.mining
    &&& a.dispatch == b.dispatch
    &&& a.deployed == b.deployed
    &&& a.occupied_by == b.occupied_by
    &&& a.exhausted == b.exhausted
}

/// Two factories agree on everything but their alerts.
pub open spec fn same_factory_state(a: FactoryNode, b: FactoryNode) -> bool {
    &&& a.node == b.node
    &&& a.production == b.production
    &&& a.dispatch == b.dispatch
    &&& a.input_buffer == b.input_buffer
}

/// The deposits and factories of two worlds differ in their alerts at most.
pub open spec fn alerts_only(a: WorldState, b: WorldState) -> bool {
    &&& a.sources@.len() == b.sources@.len()
    &&& a.factories@.len() == b.factories@.len()
    &&& forall|k: int| 0 <= k < a.sources@.len() ==> same_source_state(#[trigger] a.sources@[k], b.sources@[k])
    &&& forall|k: int| 0 <= k < a.factories@.len() ==> same_factory_state(#[trigger] a.factories@[k], b.factories@[k])
    &&& a.haulers == b.haulers
}

/// The squared distance between two cells.
pub open spec fn distance_sq(a: GridPosition, b: GridPosition) -> int {
    (a.x - b.x) * (a.x - b.x) + (a.y - b.y) * (a.y - b.y)
}

/// The squared distance between two cells, kept folded in comparisons.
#[verifier::opaque]
pub open spec fn sq_distance(a: GridPosition, b: GridPosition) -> int {
    distance_sq(a, b)
}

/// Whether a battery belongs to a node other than `generator`.
pub open spec fn other_node(owner: BatteryOwner, generator: NodeId) -> bool {
    owner matches BatteryOwner::Node(n) && n != generator
}

fn distance_sq_exec(a: GridPosition, b: GridPosition) -> (r: u128)
    ensures
        r == distance_sq(a, b),
{
    let dx: i64 = a.x as i64 - b.x as i64;
    let dy: i64 = a.y as i64 - b.y as i64;
    let ax: u128 = if dx < 0 { (-dx) as u128 } else { dx as u128 };
    let ay: u128 = if dy < 0 { (-dy) as u128 } else { dy as u128 };
    assert(ax * ax <= 0x1_0000_0000_0000_0000) by (nonlinear_arith) requires ax <= 0x1_0000_0000;
    assert(ay * ay <= 0x1_0000_0000_0000_0000) by (nonlinear_arith) requires ay <= 0x1_0000_0000;
    assert(ax * ax == dx * dx) by (nonlinear_arith) requires ax == dx || ax == -dx;
    assert(ay * ay == dy * dy) by (nonlinear_arith) requires ay == dy || ay == -dy;
    ax * ax + ay * ay
}

impl GameState {
    /// Where a node stands in the world.
    pub open spec fn cell(self, node: NodeId) -> GridPosition {
        crate::topology::position_in(self.state().topology.nodes@, node)
    }

    /// The squared distance between two nodes, paired with the second node so
    /// that ties order by node.
    fn dispatch_distance(&self, from: NodeId, to: NodeId) -> (r: (u128, NodeId))
        ensures
            r.0 == distance_sq(self.cell(from), self.cell(to)),
            r.1 == to,
    {
        let a = self.world.topology.position_or_origin(from);
        let b = self.world.topology.position_or_origin(to);
        (distance_sq_exec(a, b), to)
    }

    /// Whether two nodes are close enough to hand items over: on the same or
    /// touching cells.
    fn nodes_in_transfer_range(&self, left: NodeId, right: NodeId) -> (r: bool)
        ensures
            r == (self.cell(left) == self.cell(right) || crate::topology::adjacent_spec(self.cell(left), self.cell(right))),
    {
        let a = self.world.topology.position_or_origin(left);
        let b = self.world.topology.position_or_origin(right);
        a == b || crate::topology::adjacent(a, b)
    }

    /// Records an alert on the object a node names, if the world has it.
    fn record_node_alert(&mut self, node: NodeId, message: &str)
        requires
            old(self).wf(),
        ensures
            final(self).wf(),
            same_objects(old(self).state(), final(self).state()),
            final(self).catalog() == old(self).catalog(),
            final(self).policy() == old(self).policy(),
            final(self).counters() == old(self).counters(),
            final(self).state().batteries == old(self).state().batteries,
            final(self).state().queued_mutations == old(self).state().queued_mutations,
            final(self).state().power_lines == old(self).state().power_lines,
            final(self).state().generator_power_lines == old(self).state().generator_power_lines,
            alerts_only(old(self).state(), final(self).state()),
            forall|k: int| 0 <= k < old(self).state().sources@.len() ==> (#[trigger] final(self).state().sources@[k]).alerts@
                == (if node matches NodeId::Source(i) && k == i {
                    recorded(old(self).state().sources@[k].alerts@, old(self).state().tick, message@)
                } else {
                    old(self).state().sources@[k].alerts@
                }),
            forall|k: int| 0 <= k < old(self).state().factories@.len() ==> (#[trigger] final(self).state().factories@[k]).alerts@
                == (if node matches NodeId::Factory(i) && k == i {
                    recorded(old(self).state().factories@[k].alerts@, old(self).state().tick, message@)
                } else {
                    old(self).state().factories@[k].alerts@
                }),
            final(self).state().radars@.len() == old(self).state().radars@.len(),
            forall|k: int| 0 <= k < old(self).state().radars@.len() ==> (#[trigger] final(self).state().radars@[k]).alerts@
                == (if node matches NodeId::Radar(i) && k == i {
                    recorded(old(self).state().radars@[k].alerts@, old(self).state().tick, message@)
                } else {
                    old(self).state().radars@[k].alerts@
                }),
            final(self).state().power is Some == old(self).state().power is Some,
            old(self).state().power matches Some(p) ==> {
                let q = final(self).state().power->0;
                &&& q.generators@.len() == p.generators@.len()
                &&& forall|k: int| 0 <= k < p.generators@.len() ==> (#[trigger] q.generators@[k]).node == p.generators@[k].node
                &&& forall|k: int| 0 <= k < p.generators@.len() ==> (#[trigger] q.generators@[k]).alerts@
                    == (if node matches NodeId::Generator(i) && k == i {
                        recorded(p.generators@[k].alerts@, old(self).state().tick, message@)
                    } else {
                        p.generators@[k].alerts@
                    })
            },
            final(self).state().structures@.len() == old(self).state().structures@.len(),
            forall|k: int| 0 <= k < old(self).state().structures@.len() ==> (#[trigger] final(self).state().structures@[k]).alerts@
                == (if node is Structure && crate::tally::first_index(old(self).state().structures@, structure_at(node)) == Some(k) {
                    recorded(old(self).state().structures@[k].alerts@, old(self).state().tick, message@)
                } else {
                    old(self).state().structures@[k].alerts@
                }),
    {
        let tick = self.world.tick;
        match node {
            NodeId::Source(index) => {
                if (index as usize) < self.world.sources.len() {
                    self.world.sources[index as usize].alerts.record(tick, message);
                }
            },
            NodeId::Factory(index) => {
                if (index as usize) < self.world.factories.len() {
                    self.world.factories[index as usize].alerts.record(tick, message);
                }
            },
            NodeId::Generator(index) => {
                match &mut self.world.power {
                    Some(power) => {
                        if (index as usize) < power.generators.len() {
                            power.generators[index as usize].alerts.record(tick, message);
                        }
                    },
                    None => {},
                }
            },
            NodeId::Radar(index) => {
                if (index as usize) < self.world.radars.len() {
                    self.world.radars[index as usize].alerts.record(tick, message);
                }
            },
            NodeId::Structure(index) => {
                let mut k: usize = 0;
                while k < self.world.structures.len() && self.world.structures[k].node != NodeId::Structure(index)
                    invariant
                        k <= self.world.structures@.len(),
                        node == NodeId::Structure(index),
                        forall|j: int| 0 <= j < k ==> !structure_at(node)(#[trigger] self.state().structures@[j]),
                    decreases self.world.structures@.len() - k,
                {
                    k = k + 1;
                }
                proof {
                    if k < self.world.structures@.len() {
                        assert(structure_at(node)(self.state().structures@[k as int]));
                    }
                    crate::tally::lemma_first_index(self.state().structures@, structure_at(node), k as int);
                }
                if k < self.world.structures.len() {
                    self.world.structures[k].alerts.record(tick, message);
                }
            },
            _ => {},
        }
    }
}

/// Whether the battery of a node's owner holds `amount`.
pub open spec fn can_draw(bank: BatteryBank, node: NodeId, amount: u32) -> bool {
    exists|k: int| 0 <= k < bank.entries().len() && bank.entries()[k].owner == BatteryOwner::Node(node)
        && bank.entries()[k].energy >= amount
}

impl GameState {
    /// Draws `amount` for a consumer from the battery of `node` and reports
    /// it; without power every draw succeeds. A draw that fails counts as a
    /// starvation and leaves an alert on the node.
    fn consume_power(&mut self, node: NodeId, amount: u32, consumer: &str, events: &mut Vec<String>) -> (r: bool)
        requires
            old(self).wf(),
        ensures
            final(self).wf(),
            same_objects(old(self).state(), final(self).state()),
            final(self).catalog() == old(self).catalog(),
            final(self).policy() == old(self).policy(),
            final(self).state().queued_mutations == old(self).state().queued_mutations,
            alerts_only(old(self).state(), final(self).state()),
            final(self).state().power_lines == old(self).state().power_lines,
            final(self).state().generator_power_lines == old(self).state().generator_power_lines,
            r == (old(self).state().power is None || amount == 0 || can_draw(old(self).state().batteries, node, amount)),
            !r || old(self).state().power is None || amount == 0 ==> final(self).state().batteries == old(self).state().batteries,
            r && old(self).state().power is Some && amount > 0 ==> exists|k: int| {
                let b = #[trigger] old(self).state().batteries.entries()[k];
                &&& 0 <= k < old(self).state().batteries.entries().len()
                &&& b.owner == BatteryOwner::Node(node)
                &&& final(self).state().batteries.entries() == old(self).state().batteries.entries().update(k,
                    Battery { energy: (b.energy - amount) as u32, ..b })
            },
    {
        if self.world.power.is_none() || amount == 0 {
            return true;
        }
        let owner = BatteryOwner::Node(node);
        match self.world.batteries.find(owner) {
            None => {
                let mut line = String::new();
                crate::text::push_str(&mut line, "power starved ");
                crate::text::push_str(&mut line, consumer);
                crate::text::push_str(&mut line, " missing battery at ");
                crate::node::push_node(&mut line, node);
                events.push(line);
                self.metrics.power_starvations = self.metrics.power_starvations.saturating_add(1);
                let mut message = crate::text::text("not enough energy for ");
                crate::text::push_str(&mut message, consumer);
                self.record_node_alert(node, message.as_str());
                false
            },
            Some(k) => {
                let mut battery = self.world.batteries.at(k);
                proof {
                    self.world.batteries.lemma_within_capacity(k as int);
                }
                if battery.consume(amount) {
                    proof {
                        assert(can_draw(old(self).state().batteries, node, amount));
                    }
                    self.world.batteries.set_at(k, battery);
                    self.metrics.energy_consumed = self.metrics.energy_consumed.saturating_add(amount);
                    let mut line = String::new();
                    crate::text::push_str(&mut line, "power consume ");
                    crate::text::push_str(&mut line, consumer);
                    crate::text::push_str(&mut line, " ");
                    crate::text::push_u64(&mut line, amount as u64);
                    crate::text::push_str(&mut line, " battery ");
                    crate::text::push_u64(&mut line, battery.energy as u64);
                    crate::text::push_str(&mut line, "/");
                    crate::text::push_u64(&mut line, battery.capacity as u64);
                    crate::text::push_str(&mut line, " at ");
                    crate::node::push_node(&mut line, node);
                    events.push(line);
                    true
                } else {
                    proof {
                        assert forall|j: int| 0 <= j < old(self).state().batteries.entries().len()
                            && old(self).state().batteries.entries()[j].owner == BatteryOwner::Node(node)
                            implies old(self).state().batteries.entries()[j].energy < amount by {
                            old(self).state().batteries.lemma_owner_unique(j, k as int);
                        }
                    }
                    self.metrics.power_starvations = self.metrics.power_starvations.saturating_add(1);
                    let mut line = String::new();
                    crate::text::push_str(&mut line, "power starved ");
                    crate::text::push_str(&mut line, consumer);
                    crate::text::push_str(&mut line, " need ");
                    crate::text::push_u64(&mut line, amount as u64);
                    crate::text::push_str(&mut line, " battery ");
                    crate::text::push_u64(&mut line, battery.energy as u64);
                    crate::text::push_str(&mut line, "/");
                    crate::text::push_u64(&mut line, battery.capacity as u64);
                    crate::text::push_str(&mut line, " at ");
                    crate::node::push_node(&mut line, node);
                    events.push(line);
                    let mut message = crate::text::text("not enough energy for ");
                    crate::text::push_str(&mut message, consumer);
                    self.record_node_alert(node, message.as_str());
                    false
                }
            },
        }
    }
}

impl GameState {
    /// Where a battery stands: at its node, with its hauler, or on its power
    /// line cell. A hauler the world lacks places its battery at the origin.
    pub open spec fn battery_cell(self, owner: BatteryOwner) -> GridPosition {
        match owner {
            BatteryOwner::Node(node) => self.cell(node),
            BatteryOwner::Hauler(id) => match first_index(self.state().haulers@, hauler_with(id)) {
                Some(k) => self.cell(self.state().haulers@[k].position),
                None => GridPosition { x: 0, y: 0 },
            },
            BatteryOwner::PowerLine(p) => p,
        }
    }

    /// Where a battery stands: at its node, with its hauler, or on its power
    /// line cell. A hauler the world lacks places its battery at the origin.
    fn battery_position(&self, owner: BatteryOwner) -> (r: GridPosition)
        ensures
            r == self.battery_cell(owner),
    {
        match owner {
            BatteryOwner::Node(node) => self.world.topology.position_or_origin(node),
            BatteryOwner::Hauler(id) => {
                let mut k: usize = 0;
                while k < self.world.haulers.len()
                    invariant
                        k <= self.world.haulers@.len(),
                        owner == BatteryOwner::Hauler(id),
                        forall|j: int| 0 <= j < k ==> !hauler_with(id)(#[trigger] self.state().haulers@[j]),
                    decreases self.world.haulers@.len() - k,
                {
                    if self.world.haulers[k].id == id {
                        proof {
                            assert(hauler_with(id)(self.state().haulers@[k as int]));
                            lemma_first_index(self.state().haulers@, hauler_with(id), k as int);
                        }
                        return self.world.topology.position_or_origin(self.world.haulers[k].position);
                    }
                    k = k + 1;
                }
                proof {
                    lemma_first_index(self.state().haulers@, hauler_with(id), k as int);
                }
                GridPosition { x: 0, y: 0 }
            },
            BatteryOwner::PowerLine(p) => p,
        }
    }

    /// Balances the energy of every group of batteries that touch, directly
    /// or through each other, in proportion to their capacities. Groups are
    /// taken in the order of their first battery.
    pub fn balance_batteries(&mut self, events: &mut Vec<String>)
        requires
            old(self).wf(),
        ensures
            final(self).wf(),
            same_objects(old(self).state(), final(self).state()),
            final(self).catalog() == old(self).catalog(),
            final(self).policy() == old(self).policy(),
            final(self).counters() == (RunMetrics {
                energy_balanced: sat_add64(
                    old(self).counters().energy_balanced,
                    units_moved(old(self).state().batteries.entries(), final(self).state().batteries.entries(),
                        old(self).state().batteries.entries().len()),
                ),
                ..old(self).counters()
            }),
            final(self).state().queued_mutations == old(self).state().queued_mutations,
            sum_energy(final(self).state().batteries.entries()) == sum_energy(old(self).state().batteries.entries()),
            final(self).state().batteries.entries().len() == old(self).state().batteries.entries().len(),
            forall|m: int| 0 <= m < final(self).state().batteries.entries().len() ==> {
                &&& (#[trigger] final(self).state().batteries.entries()[m]).owner == old(self).state().batteries.entries()[m].owner
                &&& final(self).state().batteries.entries()[m].capacity == old(self).state().batteries.entries()[m].capacity
            },
    {
        let len = self.world.batteries.len();
        let mut positions: Vec<GridPosition> = Vec::new();
        let mut charges: Vec<u32> = Vec::new();
        let mut k: usize = 0;
        while k < len
            invariant
                len == self.world.batteries.entries().len(),
                self.state() == old(self).state(),
                k <= len,
                positions@.len() == k,
                charges@.len() == k,
                forall|j: int| 0 <= j < k ==> charges@[j] == (#[trigger] old(self).state().batteries.entries()[j]).energy,
            decreases len - k,
        {
            let battery = self.world.batteries.at(k);
            positions.push(self.battery_position(battery.owner));
            charges.push(battery.energy);
            k = k + 1;
        }
        let mut seen: Vec<bool> = Vec::new();
        let mut k: usize = 0;
        while k < len
            invariant
                k <= len,
                seen@.len() == k,
                forall|j: int| 0 <= j < k ==> !seen@[j],
            decreases len - k,
        {
            seen.push(false);
            k = k + 1;
        }
        proof {
            lemma_count_true_none(seen@);
        }
        let mut start: usize = 0;
        while start < len
            invariant
                self.wf(),
                same_objects(old(self).state(), self.state()),
                self.catalog() == old(self).catalog(),
                self.policy() == old(self).policy(),
                self.counters() == old(self).counters(),
                self.state().queued_mutations == old(self).state().queued_mutations,
                len == self.world.batteries.entries().len(),
                len == old(self).state().batteries.entries().len(),
                positions@.len() == len,
                charges@.len() == len,
                forall|j: int| 0 <= j < len ==> charges@[j] == (#[trigger] old(self).state().batteries.entries()[j]).energy,
                seen@.len() == len,
                0 <= count_true(seen@) <= len,
                start <= len,
                sum_energy(self.state().batteries.entries()) == sum_energy(old(self).state().batteries.entries()),
                forall|m: int| 0 <= m < len ==> {
                    &&& (#[trigger] self.state().batteries.entries()[m]).owner == old(self).state().batteries.entries()[m].owner
                    &&& self.state().batteries.entries()[m].capacity == old(self).state().batteries.entries()[m].capacity
                },
            decreases len - start,
        {
            if !seen[start] {
                let ghost base = count_true(seen@);
                let mut component: Vec<usize> = Vec::new();
                proof {
                    lemma_mark(seen@, start as int);
                }
                seen.set(start, true);
                component.push(start);
                let mut cursor: usize = 0;
                while cursor < component.len()
                    invariant
                        len == self.world.batteries.entries().len(),
                        positions@.len() == len,
                        seen@.len() == len,
                        count_true(seen@) == base + component@.len(),
                        count_true(seen@) <= len,
                        0 <= base,
                        cursor <= component@.len(),
                        forall|j: int| 0 <= j < component@.len() ==> (#[trigger] component@[j]) < len && seen@[component@[j] as int],
                        crate::balance::distinct_indices(component@, len as int),
                    decreases len - cursor,
                {
                    let p = positions[component[cursor]];
                    cursor = cursor + 1;
                    let mut dy: i64 = -1;
                    while dy <= 1
                        invariant
                            len == self.world.batteries.entries().len(),
                            positions@.len() == len,
                            seen@.len() == len,
                            count_true(seen@) == base + component@.len(),
                            count_true(seen@) <= len,
                            cursor <= component@.len(),
                            forall|j: int| 0 <= j < component@.len() ==> (#[trigger] component@[j]) < len && seen@[component@[j] as int],
                            crate::balance::distinct_indices(component@, len as int),
                            -1 <= dy <= 2,
                        decreases 2 - dy,
                    {
                        let mut dx: i64 = -1;
                        while dx <= 1
                            invariant
                                len == self.world.batteries.entries().len(),
                                positions@.len() == len,
                                seen@.len() == len,
                                count_true(seen@) == base + component@.len(),
                                count_true(seen@) <= len,
                                cursor <= component@.len(),
                                forall|j: int| 0 <= j < component@.len() ==> (#[trigger] component@[j]) < len && seen@[component@[j] as int],
                                crate::balance::distinct_indices(component@, len as int),
                                -1 <= dy <= 1,
                                -1 <= dx <= 2,
                            decreases 2 - dx,
                        {
                            let x: i64 = p.x as i64 + dx;
                            let y: i64 = p.y as i64 + dy;
                            let mut m: usize = 0;
                            while m < len
                                invariant
                                    len == self.world.batteries.entries().len(),
                                    positions@.len() == len,
                                    seen@.len() == len,
                                    count_true(seen@) == base + component@.len(),
                                    count_true(seen@) <= len,
                                    cursor <= component@.len(),
                                    forall|j: int| 0 <= j < component@.len() ==> (#[trigger] component@[j]) < len && seen@[component@[j] as int],
                                    crate::balance::distinct_indices(component@, len as int),
                                    m <= len,
                                decreases len - m,
                            {
                                if !seen[m] && positions[m].x as i64 == x && positions[m].y as i64 == y {
                                    proof {
                                        lemma_mark(seen@, m as int);
                                        assert forall|j: int| 0 <= j < component@.len() implies component@[j] != m by {
                                            assert(seen@[component@[j] as int]);
                                        }
                                    }
                                    seen.set(m, true);
                                    component.push(m);
                                    proof {
                                        lemma_count_true_bound(seen@);
                                    }
                                }
                                m = m + 1;
                            }
                            dx = dx + 1;
                        }
                        dy = dy + 1;
                    }
                }
                let (changed, total) = self.world.batteries.balance(&component);
                if changed && component.len() > 1 {
                    let mut line = crate::text::text("power balance ");
                    crate::text::push_u128(&mut line, total);
                    crate::text::push_str(&mut line, " energy across ");
                    crate::text::push_u64(&mut line, component.len() as u64);
                    crate::text::push_str(&mut line, " adjacent batteries");
                    events.push(line);
                }
            }
            start = start + 1;
        }
        let ghost after = self.state().batteries.entries();
        let mut balanced: u64 = self.metrics.energy_balanced;
        let mut k: usize = 0;
        while k < len
            invariant
                k <= len,
                len == after.len(),
                len == old(self).state().batteries.entries().len(),
                after == self.state().batteries.entries(),
                charges@.len() == len,
                forall|j: int| 0 <= j < len ==> charges@[j] == (#[trigger] old(self).state().batteries.entries()[j]).energy,
                units_moved(old(self).state().batteries.entries(), after, k as nat) >= 0,
                balanced == sat_add64(old(self).counters().energy_balanced,
                    units_moved(old(self).state().batteries.entries(), after, k as nat)),
            decreases len - k,
        {
            let now = self.world.batteries.at(k).energy;
            let was = charges[k];
            proof {
                assert(units_moved(old(self).state().batteries.entries(), after, (k + 1) as nat)
                    == units_moved(old(self).state().batteries.entries(), after, k as nat)
                        + crate::balance::energy_drop(was, now));
            }
            if was > now {
                balanced = balanced.saturating_add((was - now) as u64);
            }
            k = k + 1;
        }
        self.metrics.energy_balanced = balanced;
    }
}

proof fn lemma_count_true_none(b: Seq<bool>)
    requires
        forall|j: int| 0 <= j < b.len() ==> !b[j],
    ensures
        count_true(b) == 0,
    decreases b.len(),
{
    if b.len() > 0 {
        lemma_count_true_none(b.drop_last());
    }
}

proof fn lemma_count_true_bound(b: Seq<bool>)
    ensures
        0 <= count_true(b) <= b.len(),
    decreases b.len(),
{
    if b.len() > 0 {
        lemma_count_true_bound(b.drop_last());
    }
}

proof fn lemma_mark(b: Seq<bool>, i: int)
    requires
        0 <= i < b.len(),
        !b[i],
    ensures
        count_true(b.update(i, true)) == count_true(b) + 1,
        count_true(b.update(i, true)) <= b.len(),
    decreases b.len(),
{
    let t = b.update(i, true);
    if i == b.len() - 1 {
        assert(t.drop_last() =~= b.drop_last());
    } else {
        assert(t.drop_last() =~= b.drop_last().update(i, true));
        lemma_mark(b.drop_last(), i);
    }
    lemma_count_true_bound(t);
}

/// Whether no cell is listed twice.
pub open spec fn no_repeats(cells: Seq<GridPosition>) -> bool {
    forall|i: int, j: int| 0 <= i < j < cells.len() ==> cells[i] != cells[j]
}

/// Whether a generator has built its power line.
pub open spec fn linked(lines: Seq<GeneratorPowerLine>, generator: NodeId) -> bool {
    exists|k: int| 0 <= k < lines.len() && lines[k].generator == generator
}

/// The batteries of `after` are those of `before` and power line batteries,
/// and every node battery of `before` is still there.
pub open spec fn node_batteries_kept(before: BatteryBank, after: BatteryBank) -> bool {
    &&& forall|b: Battery| #[trigger] after.entries().contains(b) ==> before.entries().contains(b) || b.owner is PowerLine
    &&& forall|b: Battery| #[trigger] before.entries().contains(b) && b.owner is Node ==> after.entries().contains(b)
}

/// The sign of a difference.
pub open spec fn sign(d: int) -> int {
    if d < 0 { -1 } else if d > 0 { 1 } else { 0 }
}

/// How many steps apart two cells are along both axes together.
pub open spec fn walk_distance(a: GridPosition, b: GridPosition) -> int {
    (if a.x >= b.x { a.x - b.x } else { b.x - a.x }) + (if a.y >= b.y { a.y - b.y } else { b.y - a.y })
}

/// The next cell of a diagonal walk toward a target.
pub open spec fn walk_next(current: GridPosition, target: GridPosition) -> GridPosition {
    GridPosition { x: (current.x + sign(target.x - current.x)) as i32, y: (current.y + sign(target.y - current.y)) as i32 }
}

/// The cells a power line walk from `current` toward `target` passes over,
/// inside a `width` x `height` grid: one diagonal step at a time, until it is
/// beside the target, on it, or at the edge.
pub open spec fn walk_cells(current: GridPosition, target: GridPosition, width: int, height: int) -> Seq<GridPosition>
    decreases walk_distance(current, target),
{
    if crate::topology::adjacent_spec(current, target) {
        Seq::empty()
    } else {
        let next = walk_next(current, target);
        if next == target || next.x < 0 || next.y < 0 || next.x >= width || next.y >= height {
            Seq::empty()
        } else {
            seq![next] + walk_cells(next, target, width, height)
        }
    }
}

/// The cells of a walk that are not power lines yet, each once.
pub open spec fn fresh_cells(walk: Seq<GridPosition>, lines: Seq<GridPosition>) -> Seq<GridPosition>
    decreases walk.len(),
{
    if walk.len() == 0 {
        Seq::empty()
    } else if lines.contains(walk[0]) {
        fresh_cells(walk.drop_first(), lines)
    } else {
        seq![walk[0]] + fresh_cells(walk.drop_first(), lines.push(walk[0]))
    }
}

/// The sign of a difference: -1, 0 or 1.
fn signum(d: i64) -> (r: i64)
    ensures
        r == (if d < 0 { -1int } else if d > 0 { 1int } else { 0int }),
{
    if d < 0 { -1 } else if d > 0 { 1 } else { 0 }
}

/// One cell of a debug list.
pub open spec fn cell_debug(c: GridPosition) -> Seq<char> {
    "GridPosition { x: "@ + crate::text::signed_decimal(c.x as int) + ", y: "@ + crate::text::signed_decimal(c.y as int) + " }"@
}

/// The cells of a debug list, separated by commas.
pub open spec fn cells_debug(cells: Seq<GridPosition>) -> Seq<char>
    decreases cells.len(),
{
    if cells.len() == 0 {
        Seq::empty()
    } else if cells.len() == 1 {
        cell_debug(cells[0])
    } else {
        cells_debug(cells.drop_last()) + ", "@ + cell_debug(cells.last())
    }
}

/// Appends cells as a debug list: `[GridPosition { x: 1, y: 2 }, ...]`.
fn push_cells(line: &mut String, cells: &Vec<GridPosition>)
    ensures
        final(line)@ == old(line)@ + "["@ + cells_debug(cells@) + "]"@,
{
    proof {
        reveal_strlit("[");
        reveal_strlit(", ");
        reveal_strlit("GridPosition { x: ");
        reveal_strlit(", y: ");
        reveal_strlit(" }");
        reveal_strlit("]");
    }
    crate::text::push_str(line, "[");
    let ghost start = line@;
    let mut k: usize = 0;
    proof {
        assert(cells@.take(0) =~= Seq::<GridPosition>::empty());
        assert(line@ =~= start + cells_debug(cells@.take(0)));
    }
    while k < cells.len()
        invariant
            k <= cells@.len(),
            line@ == start + cells_debug(cells@.take(k as int)),
        decreases cells@.len() - k,
    {
        let ghost prefix = line@;
        if k > 0 {
            crate::text::push_str(line, ", ");
        }
        crate::text::push_str(line, "GridPosition { x: ");
        crate::text::push_i64(line, cells[k].x as i64);
        crate::text::push_str(line, ", y: ");
        crate::text::push_i64(line, cells[k].y as i64);
        crate::text::push_str(line, " }");
        proof {
            let t = cells@.take(k + 1);
            assert(t.drop_last() =~= cells@.take(k as int));
            assert(t.last() == cells@[k as int]);
            if k == 0 {
                assert(cells@.take(0).len() == 0);
                assert(line@ =~= start + cells_debug(t));
            } else {
                assert(line@ =~= start + cells_debug(t));
            }
        }
        k = k + 1;
    }
    proof {
        assert(cells@.take(k as int) =~= cells@);
    }
    crate::text::push_str(line, "]");
    assert(line@ =~= old(line)@ + "["@ + cells_debug(cells@) + "]"@);
}

impl GameState {
    fn is_linked(&self, generator: NodeId) -> (r: bool)
        ensures
            r == linked(self.state().generator_power_lines@, generator),
    {
        let mut k: usize = 0;
        while k < self.world.generator_power_lines.len()
            invariant
                k <= self.world.generator_power_lines@.len(),
                forall|j: int| 0 <= j < k ==> self.world.generator_power_lines@[j].generator != generator,
            decreases self.world.generator_power_lines@.len() - k,
        {
            if self.world.generator_power_lines[k].generator == generator {
                return true;
            }
            k = k + 1;
        }
        false
    }

    /// The battery of another node nearest to a generator, ties to the
    /// smaller owner, with its node and cell.
    fn power_line_target(&self, generator: NodeId, origin: GridPosition) -> (r: Option<(NodeId, GridPosition)>)
        ensures
            r matches Some((node, cell)) ==> node != generator && cell == self.cell(node),
            r is None <==> forall|k: int| 0 <= k < self.state().batteries.entries().len()
                ==> !other_node(#[trigger] self.state().batteries.entries()[k].owner, generator),
            r matches Some((node, cell)) ==> {
                &&& exists|k: int| 0 <= k < self.state().batteries.entries().len()
                    && #[trigger] self.state().batteries.entries()[k].owner == BatteryOwner::Node(node)
                &&& forall|k: int| 0 <= k < self.state().batteries.entries().len()
                    && other_node(#[trigger] self.state().batteries.entries()[k].owner, generator)
                    ==> sq_distance(origin, cell) <= sq_distance(origin, self.cell(self.state().batteries.entries()[k].owner->Node_0))
            },
    {
        let mut best: Option<(NodeId, GridPosition, u128, BatteryOwner)> = None;
        let mut k: usize = 0;
        while k < self.world.batteries.len()
            invariant
                k <= self.world.batteries.entries().len(),
                best matches Some((node, cell, _, _)) ==> node != generator && cell == self.cell(node),
                best is None <==> forall|j: int| 0 <= j < k ==> !other_node(#[trigger] self.state().batteries.entries()[j].owner, generator),
                best matches Some((node, cell, d, o)) ==> {
                    &&& d == sq_distance(origin, cell)
                    &&& o == BatteryOwner::Node(node)
                    &&& exists|j: int| 0 <= j < k && #[trigger] self.state().batteries.entries()[j].owner == o
                    &&& forall|j: int| 0 <= j < k && other_node(#[trigger] self.state().batteries.entries()[j].owner, generator)
                        ==> d <= sq_distance(origin, self.cell(self.state().batteries.entries()[j].owner->Node_0))
                },
            decreases self.world.batteries.entries().len() - k,
        {
            let owner = self.world.batteries.at(k).owner;
            match owner {
                BatteryOwner::Node(node) => {
                    if node != generator {
                        let cell = self.world.topology.position_or_origin(node);
                        let d = distance_sq_exec(origin, cell);
                        proof {
                            reveal(sq_distance);
                            assert(self.state().batteries.entries()[k as int].owner == owner);
                        }
                        let better = match best {
                            None => true,
                            Some((_, _, best_d, best_owner)) => d < best_d || (d == best_d && crate::power::owner_lt(owner, best_owner)),
                        };
                        if better {
                            best = Some((node, cell, d, owner));
                        }
                    }
                },
                _ => {},
            }
            k = k + 1;
        }
        match best {
            Some((node, cell, _, _)) => Some((node, cell)),
            None => None,
        }
    }

    /// Each generator without a power line builds one: a greedy diagonal walk
    /// of cells from the generator toward the nearest battery of another
    /// node, stopping beside the target, on it, or at the edge of the grid.
    /// Each new cell carries an empty battery of capacity 1000.
    fn construct_power_lines(&mut self, events: &mut Vec<String>)
        requires
            old(self).wf(),
        ensures
            final(self).wf(),
            same_objects(old(self).state(), final(self).state()),
            final(self).catalog() == old(self).catalog(),
            final(self).policy() == old(self).policy(),
            final(self).counters() == old(self).counters(),
            final(self).state().queued_mutations == old(self).state().queued_mutations,
            no_repeats(old(self).state().power_lines@) ==> no_repeats(final(self).state().power_lines@),
            forall|g: NodeId| linked(old(self).state().generator_power_lines@, g) ==> linked(final(self).state().generator_power_lines@, g),
    {
        let count: usize = match &self.world.power {
            Some(power) => power.generators.len(),
            None => 0,
        };
        let mut g: usize = 0;
        while g < count
            invariant
                self.wf(),
                same_objects(old(self).state(), self.state()),
                self.catalog() == old(self).catalog(),
                self.policy() == old(self).policy(),
                self.counters() == old(self).counters(),
                self.state().queued_mutations == old(self).state().queued_mutations,
                count == generator_count(self.state()),
                no_repeats(old(self).state().power_lines@) ==> no_repeats(self.state().power_lines@),
                forall|n: NodeId| linked(old(self).state().generator_power_lines@, n) ==> linked(self.state().generator_power_lines@, n),
            decreases count - g,
        {
            let generator = match &self.world.power {
                Some(power) => power.generators[g].node,
                None => NodeId::Road,
            };
            if !self.is_linked(generator) {
                let origin = self.world.topology.position_or_origin(generator);
                match self.power_line_target(generator, origin) {
                    None => {
                        let mut line = crate::text::text("power line ");
                        crate::node::push_node(&mut line, generator);
                        crate::text::push_str(&mut line, " no battery target found");
                        events.push(line);
                        self.record_node_alert(generator, "no power source found");
                    },
                    Some((target_node, target)) => {
                        let built = self.walk_power_line(origin, target);
                        let ghost before = self.world.generator_power_lines@;
                        let mut line = crate::text::text("power line ");
                        crate::node::push_node(&mut line, generator);
                        crate::text::push_str(&mut line, " built ");
                        crate::text::push_u64(&mut line, built.len() as u64);
                        crate::text::push_str(&mut line, " cells ");
                        push_cells(&mut line, &built);
                        crate::text::push_str(&mut line, " toward ");
                        crate::text::push_i64(&mut line, target.x as i64);
                        crate::text::push_str(&mut line, ",");
                        crate::text::push_i64(&mut line, target.y as i64);
                        events.push(line);
                        self.world.generator_power_lines.push(GeneratorPowerLine { generator, target: target_node, cells: built });
                        proof {
                            assert forall|n: NodeId| linked(before, n) implies linked(self.state().generator_power_lines@, n) by {
                                let j = choose|j: int| 0 <= j < before.len() && before[j].generator == n;
                                assert(self.state().generator_power_lines@[j] == before[j]);
                            }
                        }
                    },
                }
            }
            g = g + 1;
        }
    }

    /// Walks from `origin` toward `target`, adding a power line cell with a
    /// battery for each new cell, and returns the cells added.
    fn walk_power_line(&mut self, origin: GridPosition, target: GridPosition) -> (built: Vec<GridPosition>)
        requires
            old(self).wf(),
        ensures
            final(self).wf(),
            same_objects(old(self).state(), final(self).state()),
            final(self).catalog() == old(self).catalog(),
            final(self).policy() == old(self).policy(),
            final(self).counters() == old(self).counters(),
            final(self).state().queued_mutations == old(self).state().queued_mutations,
            final(self).state().generator_power_lines == old(self).state().generator_power_lines,
            no_repeats(old(self).state().power_lines@) ==> no_repeats(final(self).state().power_lines@),
            built@ == fresh_cells(walk_cells(origin, target, old(self).state().topology.width as int,
                old(self).state().topology.height as int), old(self).state().power_lines@),
            final(self).state().power_lines@ == old(self).state().power_lines@ + built@,
            forall|c: GridPosition| built@.contains(c) ==> #[trigger] final(self).state().batteries.entries().contains(
                Battery { owner: BatteryOwner::PowerLine(c), energy: 0, capacity: 1_000 }),
            node_batteries_kept(old(self).state().batteries, final(self).state().batteries),
            final(self).state().power == old(self).state().power,
    {
        let mut built: Vec<GridPosition> = Vec::new();
        let mut current = origin;
        let ghost w = self.world.topology.width as int;
        let ghost h = self.world.topology.height as int;
        let ghost whole = fresh_cells(walk_cells(origin, target, w, h), old(self).state().power_lines@);
        let mut done = false;
        while !done && !crate::topology::adjacent(current, target)
            invariant
                w == self.world.topology.width,
                h == self.world.topology.height,
                whole == fresh_cells(walk_cells(origin, target, w, h), old(self).state().power_lines@),
                !done ==> whole == built@ + fresh_cells(walk_cells(current, target, w, h), self.state().power_lines@),
                done ==> whole == built@,
                self.state().power_lines@ == old(self).state().power_lines@ + built@,
                forall|c: GridPosition| built@.contains(c) ==> #[trigger] self.state().batteries.entries().contains(
                    Battery { owner: BatteryOwner::PowerLine(c), energy: 0, capacity: 1_000 }),
                node_batteries_kept(old(self).state().batteries, self.state().batteries),
                self.state().power == old(self).state().power,
                self.wf(),
                same_objects(old(self).state(), self.state()),
                self.catalog() == old(self).catalog(),
                self.policy() == old(self).policy(),
                self.counters() == old(self).counters(),
                self.state().queued_mutations == old(self).state().queued_mutations,
                self.state().generator_power_lines == old(self).state().generator_power_lines,
                no_repeats(old(self).state().power_lines@) ==> no_repeats(self.state().power_lines@),
            decreases (if current.x >= target.x { current.x - target.x } else { target.x - current.x })
                + (if current.y >= target.y { current.y - target.y } else { target.y - current.y }), (if done { 0int } else { 1int }),
        {
            let prev = current;
            let sx = signum(target.x as i64 - current.x as i64);
            let sy = signum(target.y as i64 - current.y as i64);
            let next = GridPosition { x: (current.x as i64 + sx) as i32, y: (current.y as i64 + sy) as i32 };
            assert(next == walk_next(prev, target));
            current = next;
            if current == target || current.x < 0 || current.y < 0
                || current.x >= self.world.topology.width || current.y >= self.world.topology.height {
                current = prev;
                done = true;
                assert(walk_cells(prev, target, w, h) =~= Seq::<GridPosition>::empty());
                assert(whole =~= built@);
                continue;
            }
            proof {
                assert(walk_cells(prev, target, w, h) == seq![next] + walk_cells(next, target, w, h));
                assert((seq![next] + walk_cells(next, target, w, h))[0] == next);
                assert((seq![next] + walk_cells(next, target, w, h)).drop_first() =~= walk_cells(next, target, w, h));
            }
            let ghost before = self.world.power_lines@;
            let ghost built_before = built@;
            if crate::topology::insert_position(&mut self.world.power_lines, current) {
                proof {
                    if no_repeats(before) {
                        assert forall|i: int, j: int| 0 <= i < j < self.world.power_lines@.len()
                            implies self.world.power_lines@[i] != self.world.power_lines@[j] by {
                            if j == before.len() {
                                assert(!before.contains(current));
                                assert(before[i] == self.world.power_lines@[i]);
                            }
                        }
                    }
                }
                let owner = BatteryOwner::PowerLine(current);
                let ghost bank_before = self.state().batteries;
                self.world.batteries.insert(Battery::new(owner, 0, 1_000));
                built.push(current);
                proof {
                    assert(whole =~= built@ + fresh_cells(walk_cells(current, target, w, h), self.state().power_lines@));
                    assert forall|c: GridPosition| built@.contains(c) implies #[trigger] self.state().batteries.entries().contains(
                        Battery { owner: BatteryOwner::PowerLine(c), energy: 0, capacity: 1_000 }) by {
                        if c != current {
                            assert(built_before.contains(c));
                            assert(bank_before.entries().contains(Battery { owner: BatteryOwner::PowerLine(c), energy: 0, capacity: 1_000 }));
                        }
                    }
                    assert(self.state().power_lines@ =~= old(self).state().power_lines@ + built@);
                    assert forall|b: Battery| #[trigger] self.state().batteries.entries().contains(b)
                        implies old(self).state().batteries.entries().contains(b) || b.owner is PowerLine by {
                        if b.owner != owner {
                            assert(bank_before.entries().contains(b));
                        }
                    }
                    assert forall|b: Battery| #[trigger] old(self).state().batteries.entries().contains(b) && b.owner is Node
                        implies self.state().batteries.entries().contains(b) by {
                        assert(bank_before.entries().contains(b));
                    }
                }
            } else {
                proof {
                    assert(whole =~= built@ + fresh_cells(walk_cells(current, target, w, h), self.state().power_lines@));
                }
            }
        }
        built
    }

    /// Runs the generators, builds power lines, and balances the batteries.
    pub fn advance_power(&mut self, events: &mut Vec<String>)
        requires
            old(self).wf(),
        ensures
            final(self).wf(),
            same_objects(old(self).state(), final(self).state()),
            final(self).catalog() == old(self).catalog(),
            final(self).policy() == old(self).policy(),
            final(self).state().queued_mutations == old(self).state().queued_mutations,
            old(self).state().power is None ==> final(self).state() == old(self).state() && final(self).counters() == old(self).counters(),
            old(self).state().power matches Some(grid) ==> crate::power::distinct_generators(grid.generators@) ==> {
                let y = crate::power::grid_yield(grid.generators@, old(self).state().batteries.entries(), grid.generators@.len());
                &&& final(self).counters().fuel_burned == crate::metrics::sat_add32(old(self).counters().fuel_burned, y.0)
                &&& final(self).counters().energy_generated == crate::metrics::sat_add32(old(self).counters().energy_generated, y.1)
                &&& final(self).counters().energy_balanced >= old(self).counters().energy_balanced
                &&& final(self).counters().ticks == old(self).counters().ticks
                &&& final(self).counters().mined == old(self).counters().mined
                &&& final(self).counters().crafted == old(self).counters().crafted
                &&& final(self).counters().dispatches_assigned == old(self).counters().dispatches_assigned
                &&& final(self).counters().units_collected == old(self).counters().units_collected
                &&& final(self).counters().units_delivered == old(self).counters().units_delivered
                &&& final(self).counters().energy_consumed == old(self).counters().energy_consumed
                &&& final(self).counters().power_starvations == old(self).counters().power_starvations
                &&& final(self).counters().idle_ticks == old(self).counters().idle_ticks
            },
    {
        let (burned, generated) = match &mut self.world.power {
            Some(power) => power.generate(&mut self.world.batteries, events),
            None => {
                return;
            },
        };
        self.metrics.fuel_burned = self.metrics.fuel_burned.saturating_add(burned);
        self.metrics.energy_generated = self.metrics.energy_generated.saturating_add(generated);
        let ghost generated_counters = self.counters();
        self.construct_power_lines(events);
        let ghost lines_state = self.state();
        self.balance_batteries(events);
        proof {
            crate::balance::lemma_units_moved_nonneg(lines_state.batteries.entries(), self.state().batteries.entries(),
                lines_state.batteries.entries().len());
            assert(self.counters().fuel_burned == generated_counters.fuel_burned);
        }
    }
}

/// Where a hauler's assignment stands after the cargo is looked at: a
/// collection with cargo moves on to delivery, a retrieval with cargo to
/// deployment, and an emptied delivery or deployment ends.
pub open spec fn next_receiver(state: DispatchReceiverState, cargo: InventoryModel) -> DispatchReceiverState {
    match state {
        DispatchReceiverState::Unassigned => state,
        DispatchReceiverState::Assigned(a) => {
            let held = cargo.count(a.item);
            match a.phase {
                DispatchPhase::Collect => if held > 0 {
                    DispatchReceiverState::Assigned(DispatchAssignment { phase: DispatchPhase::Deliver, ..a })
                } else { state },
                DispatchPhase::Retrieve => if held > 0 {
                    DispatchReceiverState::Assigned(DispatchAssignment { phase: DispatchPhase::Deploy, ..a })
                } else { state },
                DispatchPhase::Deliver | DispatchPhase::Deploy => if held == 0 {
                    DispatchReceiverState::Unassigned
                } else { state },
            }
        },
    }
}

/// The name of a phase in events.
pub open spec fn phase_text(phase: DispatchPhase) -> Seq<char> {
    match phase {
        DispatchPhase::Collect => "Collect"@,
        DispatchPhase::Deliver => "Deliver"@,
        DispatchPhase::Retrieve => "Retrieve"@,
        DispatchPhase::Deploy => "Deploy"@,
    }
}

/// The name of a phase in events.
fn phase_name(phase: DispatchPhase) -> (r: &'static str)
    ensures
        r@ == phase_text(phase),
{
    match phase {
        DispatchPhase::Collect => "Collect",
        DispatchPhase::Deliver => "Deliver",
        DispatchPhase::Retrieve => "Retrieve",
        DispatchPhase::Deploy => "Deploy",
    }
}

/// Appends a hauler's name: `hauler-` and its id.
fn push_hauler(line: &mut String, id: u16)
    ensures
        final(line)@ == old(line)@ + "hauler-"@ + crate::text::decimal(id as nat),
{
    crate::text::push_str(line, "hauler-");
    crate::text::push_u64(line, id as u64);
}

impl GameState {
    /// Moves each hauler's assignment on by its cargo, and records the change
    /// on the hauler.
    fn advance_receiver_phases(&mut self, events: &mut Vec<String>)
        requires
            old(self).wf(),
        ensures
            final(self).wf(),
            same_objects(old(self).state(), final(self).state()),
            final(self).catalog() == old(self).catalog(),
            final(self).policy() == old(self).policy(),
            final(self).counters() == old(self).counters(),
            final(self).state().batteries == old(self).state().batteries,
            final(self).state().queued_mutations == old(self).state().queued_mutations,
            forall|k: int| 0 <= k < final(self).state().haulers@.len() ==> {
                let h = old(self).state().haulers@[k];
                &&& (#[trigger] final(self).state().haulers@[k]).dispatch == next_receiver(h.dispatch, h.cargo.model())
                &&& final(self).state().haulers@[k].cargo == h.cargo
                &&& final(self).state().haulers@[k].position == h.position
            },
    {
        let tick = self.world.tick;
        let mut k: usize = 0;
        while k < self.world.haulers.len()
            invariant
                self.wf(),
                same_objects(old(self).state(), self.state()),
                self.catalog() == old(self).catalog(),
                self.policy() == old(self).policy(),
                self.counters() == old(self).counters(),
                self.state().batteries == old(self).state().batteries,
                self.state().queued_mutations == old(self).state().queued_mutations,
                self.state().sources == old(self).state().sources,
                self.state().factories == old(self).state().factories,
                self.state().radars == old(self).state().radars,
                self.state().structures == old(self).state().structures,
                self.state().power == old(self).state().power,
                self.state().power_lines == old(self).state().power_lines,
                self.state().generator_power_lines == old(self).state().generator_power_lines,
                tick == self.world.tick,
                k <= self.world.haulers@.len(),
                forall|j: int| 0 <= j < k ==> {
                    let h = old(self).state().haulers@[j];
                    &&& (#[trigger] self.state().haulers@[j]).dispatch == next_receiver(h.dispatch, h.cargo.model())
                    &&& self.state().haulers@[j].cargo == h.cargo
                    &&& self.state().haulers@[j].position == h.position
                },
                forall|j: int| k <= j < self.world.haulers@.len() ==> #[trigger] self.state().haulers@[j] == old(self).state().haulers@[j],
            decreases self.world.haulers@.len() - k,
        {
            let hauler = &mut self.world.haulers[k];
            match hauler.dispatch {
                DispatchReceiverState::Unassigned => {},
                DispatchReceiverState::Assigned(a) => {
                    let held = hauler.cargo.count(a.item);
                    let next: Option<DispatchPhase> = match a.phase {
                        DispatchPhase::Collect => if held > 0 { Some(DispatchPhase::Deliver) } else { None },
                        DispatchPhase::Retrieve => if held > 0 { Some(DispatchPhase::Deploy) } else { None },
                        DispatchPhase::Deliver | DispatchPhase::Deploy => None,
                    };
                    match next {
                        Some(phase) => {
                            let alert = match a.phase {
                                DispatchPhase::Collect => "collect => deliver",
                                _ => "retrieve => deploy",
                            };
                            hauler.dispatch = DispatchReceiverState::Assigned(DispatchAssignment { phase, ..a });
                            hauler.alerts.record(tick, alert);
                            let mut line = crate::text::text("receiver ");
                            push_hauler(&mut line, hauler.id);
                            crate::text::push_str(&mut line, " ");
                            crate::text::push_str(&mut line, a.item.as_str());
                            crate::text::push_str(&mut line, " => ");
                            crate::text::push_str(&mut line, phase_name(phase));
                            events.push(line);
                        },
                        None => {
                            let ends = match a.phase {
                                DispatchPhase::Deliver | DispatchPhase::Deploy => held == 0,
                                _ => false,
                            };
                            if ends {
                                let alert = match a.phase {
                                    DispatchPhase::Deliver => "deliver => collect",
                                    _ => "deploy => retrieve",
                                };
                                hauler.clear_assignment();
                                hauler.alerts.record(tick, alert);
                                let mut line = crate::text::text("receiver ");
                                push_hauler(&mut line, hauler.id);
                                crate::text::push_str(&mut line, " ");
                                crate::text::push_str(&mut line, phase_name(a.phase));
                                crate::text::push_str(&mut line, " => awaiting");
                                events.push(line);
                            }
                        },
                    }
                },
            }
            k = k + 1;
        }
    }

    /// Each deployed deposit mines once it has drawn its mining power; the
    /// run counts what was mined.
    fn advance_mining(&mut self, events: &mut Vec<String>)
        requires
            old(self).wf(),
        ensures
            final(self).wf(),
            same_objects(old(self).state(), final(self).state()),
            final(self).catalog() == old(self).catalog(),
            final(self).policy() == old(self).policy(),
            final(self).state().queued_mutations == old(self).state().queued_mutations,
            final(self).state().haulers == old(self).state().haulers,
            forall|k: int| 0 <= k < final(self).state().sources@.len() && !old(self).state().sources@[k].deployed
                ==> (#[trigger] final(self).state().sources@[k]).mining == old(self).state().sources@[k].mining,
            forall|k: int| 0 <= k < final(self).state().sources@.len() ==>
                (#[trigger] final(self).state().sources@[k]).deployed == old(self).state().sources@[k].deployed,
            forall|k: int| 0 <= k < final(self).state().sources@.len() && !old(self).state().sources@[k].deployed
                ==> (#[trigger] final(self).state().sources@[k]).stockpile == old(self).state().sources@[k].stockpile,
            // a deployed deposit mines once, or, when its power is short,
            // not at all; without a power grid it always mines
            forall|k: int| 0 <= k < final(self).state().sources@.len() && old(self).state().sources@[k].deployed ==> {
                let before = old(self).state().sources@[k];
                let after = #[trigger] final(self).state().sources@[k];
                ||| mined_once(old(self).catalog(), before, after)
                ||| (old(self).state().power is Some && after.mining == before.mining && after.stockpile == before.stockpile)
            },
    {
        let mining_cost: u32 = match &self.world.power {
            Some(power) => power.spec.mining_cost,
            None => 0,
        };
        let mut k: usize = 0;
        while k < self.world.sources.len()
            invariant
                self.wf(),
                same_objects(old(self).state(), self.state()),
                self.catalog() == old(self).catalog(),
                self.policy() == old(self).policy(),
                self.state().queued_mutations == old(self).state().queued_mutations,
                self.state().haulers == old(self).state().haulers,
                k <= self.world.sources@.len(),
                forall|j: int| 0 <= j < self.world.sources@.len() && (k <= j || !old(self).state().sources@[j].deployed)
                    ==> (#[trigger] self.state().sources@[j]).mining == old(self).state().sources@[j].mining,
                forall|j: int| 0 <= j < self.world.sources@.len() ==>
                    (#[trigger] self.state().sources@[j]).deployed == old(self).state().sources@[j].deployed,
                forall|j: int| 0 <= j < self.world.sources@.len() && (k <= j || !old(self).state().sources@[j].deployed)
                    ==> (#[trigger] self.state().sources@[j]).stockpile == old(self).state().sources@[j].stockpile,
                forall|j: int| 0 <= j < k && old(self).state().sources@[j].deployed ==> {
                    let before = old(self).state().sources@[j];
                    let after = #[trigger] self.state().sources@[j];
                    ||| mined_once(old(self).catalog(), before, after)
                    ||| (old(self).state().power is Some && after.mining == before.mining && after.stockpile == before.stockpile)
                },
                self.state().power is Some == old(self).state().power is Some,
            decreases self.world.sources@.len() - k,
        {
            let ghost before_k = self.state().sources@[k as int];
            let ghost prev = self.state().sources@;
            if self.world.sources[k].deployed {
                let node = self.world.sources[k].node;
                let mut consumer = crate::text::text("mining-");
                crate::node::push_node(&mut consumer, node);
                if self.consume_power(node, mining_cost, consumer.as_str(), events) {
                    let tick = self.world.tick;
                    let source = &mut self.world.sources[k];
                    let mined = source.mining.advance(&self.content, &mut source.stockpile);
                    self.metrics.record_mined(source.mining.item, mined);
                    if mined > 0 {
                        let mut line = crate::text::text("mine ");
                        crate::text::push_str(&mut line, source.mining.item.as_str());
                        crate::text::push_str(&mut line, " +");
                        crate::text::push_u64(&mut line, mined as u64);
                        match source.mining.deposit {
                            crate::mining::Deposit::Finite(remaining) => {
                                crate::text::push_str(&mut line, " deposit ");
                                crate::text::push_u64(&mut line, remaining as u64);
                            },
                            crate::mining::Deposit::Manifest => {
                                crate::text::push_str(&mut line, " manifest");
                            },
                        }
                        crate::text::push_str(&mut line, " at ");
                        crate::node::push_node(&mut line, source.node);
                        events.push(line);
                    } else if source.mining.deposit == crate::mining::Deposit::Finite(0) {
                        source.alerts.record(tick, "nothing to mine");
                    }
                }
            }
            proof {
                assert forall|j: int| 0 <= j < k && old(self).state().sources@[j].deployed implies ({
                    let before = old(self).state().sources@[j];
                    let after = #[trigger] self.state().sources@[j];
                    ||| mined_once(old(self).catalog(), before, after)
                    ||| (old(self).state().power is Some && after.mining == before.mining && after.stockpile == before.stockpile)
                }) by {
                    assert(self.state().sources@[j].mining == prev[j].mining);
                    assert(self.state().sources@[j].stockpile == prev[j].stockpile);
                }
            }
            k = k + 1;
        }
    }
}

impl GameState {
    /// The index of the first deposit with a node.
    fn source_index(&self, node: NodeId) -> (r: Option<usize>)
        ensures
            r matches Some(k) ==> k < self.state().sources@.len() && self.state().sources@[k as int].node == node,
            r matches Some(k) ==> first_source(self.state().sources@, node) == Some(k as int),
            r is None ==> first_source(self.state().sources@, node) is None,
    {
        let mut k: usize = 0;
        while k < self.world.sources.len()
            invariant
                k <= self.world.sources@.len(),
                forall|j: int| 0 <= j < k ==> !source_at(node)(#[trigger] self.world.sources@[j]),
            decreases self.world.sources@.len() - k,
        {
            if self.world.sources[k].node == node {
                proof {
                    assert(source_at(node)(self.world.sources@[k as int]));
                    crate::tally::lemma_first_index(self.world.sources@, source_at(node), k as int);
                }
                return Some(k);
            }
            k = k + 1;
        }
        proof {
            crate::tally::lemma_first_index(self.world.sources@, source_at(node), k as int);
        }
        None
    }

    /// Haulers collecting in range of their source take up to their carry
    /// limit of the item from the deposit or factory.
    fn collect(&mut self, events: &mut Vec<String>)
        requires
            old(self).wf(),
        ensures
            final(self).wf(),
            same_objects(old(self).state(), final(self).state()),
            final(self).catalog() == old(self).catalog(),
            final(self).policy() == old(self).policy(),
            final(self).state().batteries == old(self).state().batteries,
            final(self).state().queued_mutations == old(self).state().queued_mutations,
            final(self).state().power == old(self).state().power,
            forall|k: int| 0 <= k < final(self).state().haulers@.len() ==> {
                &&& (#[trigger] final(self).state().haulers@[k]).dispatch == old(self).state().haulers@[k].dispatch
                &&& final(self).state().haulers@[k].position == old(self).state().haulers@[k].position
            },
    {
        let mut h: usize = 0;
        while h < self.world.haulers.len()
            invariant
                self.wf(),
                same_objects(old(self).state(), self.state()),
                self.catalog() == old(self).catalog(),
                self.policy() == old(self).policy(),
                self.state().batteries == old(self).state().batteries,
                self.state().queued_mutations == old(self).state().queued_mutations,
                self.state().power == old(self).state().power,
                h <= self.world.haulers@.len(),
                forall|k: int| 0 <= k < self.state().haulers@.len() ==> {
                    &&& (#[trigger] self.state().haulers@[k]).dispatch == old(self).state().haulers@[k].dispatch
                    &&& self.state().haulers@[k].position == old(self).state().haulers@[k].position
                },
            decreases self.world.haulers@.len() - h,
        {
            let position = self.world.haulers[h].position;
            match self.world.haulers[h].dispatch {
                DispatchReceiverState::Assigned(a) => {
                    if a.phase == DispatchPhase::Collect && self.nodes_in_transfer_range(position, a.source) {
                        let carry_limit = self.world.haulers[h].carry_limit;
                        let moved: u32 = match a.source {
                            NodeId::Source(_) => match self.source_index(a.source) {
                                Some(s) => self.world.sources[s].stockpile.transfer_up_to(&self.content, &mut self.world.haulers[h].cargo, a.item, carry_limit),
                                None => 0,
                            },
                            NodeId::Factory(f) => {
                                if (f as usize) < self.world.factories.len() {
                                    self.world.factories[f as usize].production.inventory.transfer_up_to(&self.content, &mut self.world.haulers[h].cargo, a.item, carry_limit)
                                } else {
                                    0
                                }
                            },
                            _ => 0,
                        };
                        self.metrics.units_collected = self.metrics.units_collected.saturating_add(moved);
                        if moved > 0 {
                            let mut line = crate::text::text("dispatch collect ");
                            crate::text::push_u64(&mut line, moved as u64);
                            crate::text::push_str(&mut line, " from ");
                            crate::node::push_node(&mut line, a.source);
                            crate::text::push_str(&mut line, " to ");
                            crate::node::push_node(&mut line, a.destination);
                            crate::text::push_str(&mut line, " by ");
                            push_hauler(&mut line, self.world.haulers[h].id);
                            events.push(line);
                        }
                    }
                },
                DispatchReceiverState::Unassigned => {},
            }
            h = h + 1;
        }
    }

    /// Haulers delivering in range of their destination hand over all they
    /// carry of the item that the factory or generator accepts.
    fn deliver(&mut self, events: &mut Vec<String>)
        requires
            old(self).wf(),
        ensures
            final(self).wf(),
            same_objects(old(self).state(), final(self).state()),
            final(self).catalog() == old(self).catalog(),
            final(self).policy() == old(self).policy(),
            final(self).state().batteries == old(self).state().batteries,
            final(self).state().queued_mutations == old(self).state().queued_mutations,
            forall|k: int| 0 <= k < final(self).state().haulers@.len() ==> {
                &&& (#[trigger] final(self).state().haulers@[k]).dispatch == old(self).state().haulers@[k].dispatch
                &&& final(self).state().haulers@[k].position == old(self).state().haulers@[k].position
            },
    {
        let mut h: usize = 0;
        while h < self.world.haulers.len()
            invariant
                self.wf(),
                same_objects(old(self).state(), self.state()),
                self.catalog() == old(self).catalog(),
                self.policy() == old(self).policy(),
                self.state().batteries == old(self).state().batteries,
                self.state().queued_mutations == old(self).state().queued_mutations,
                h <= self.world.haulers@.len(),
                forall|k: int| 0 <= k < self.state().haulers@.len() ==> {
                    &&& (#[trigger] self.state().haulers@[k]).dispatch == old(self).state().haulers@[k].dispatch
                    &&& self.state().haulers@[k].position == old(self).state().haulers@[k].position
                },
            decreases self.world.haulers@.len() - h,
        {
            let position = self.world.haulers[h].position;
            match self.world.haulers[h].dispatch {
                DispatchReceiverState::Assigned(a) => {
                    if a.phase == DispatchPhase::Deliver && self.nodes_in_transfer_range(position, a.destination) {
                        let carried = self.world.haulers[h].cargo.count(a.item);
                        let delivered: u32 = match a.destination {
                            NodeId::Factory(f) => {
                                if (f as usize) < self.world.factories.len() {
                                    self.world.haulers[h].cargo.transfer_up_to(&self.content, &mut self.world.factories[f as usize].production.inventory, a.item, carried)
                                } else {
                                    0
                                }
                            },
                            NodeId::Generator(g) => match &mut self.world.power {
                                Some(power) => {
                                    if (g as usize) < power.generators.len() {
                                        self.world.haulers[h].cargo.transfer_up_to(&self.content, &mut power.generators[g as usize].fuel, a.item, carried)
                                    } else {
                                        0
                                    }
                                },
                                None => 0,
                            },
                            _ => 0,
                        };
                        self.metrics.units_delivered = self.metrics.units_delivered.saturating_add(delivered);
                        if delivered > 0 {
                            let mut line = crate::text::text("dispatch deliver ");
                            crate::text::push_u64(&mut line, delivered as u64);
                            crate::text::push_str(&mut line, " to ");
                            crate::node::push_node(&mut line, a.destination);
                            crate::text::push_str(&mut line, " by ");
                            push_hauler(&mut line, self.world.haulers[h].id);
                            events.push(line);
                        }
                    }
                },
                DispatchReceiverState::Unassigned => {},
            }
            h = h + 1;
        }
    }
}

impl GameState {
    /// Haulers retrieving in range of a factory take one unit of the item;
    /// haulers deploying in range of their destination give up one unit and
    /// queue the change it makes: a drill deploys on a deposit, a coal plant
    /// spawns a generator on a deposit, and any other item spawns a structure
    /// on a build site.
    fn retrieve_and_deploy(&mut self, events: &mut Vec<String>)
        requires
            old(self).wf(),
        ensures
            final(self).wf(),
            same_objects(old(self).state(), final(self).state()),
            final(self).catalog() == old(self).catalog(),
            final(self).policy() == old(self).policy(),
            final(self).counters() == old(self).counters(),
            final(self).state().batteries == old(self).state().batteries,
            final(self).state().queued_mutations@.len() >= old(self).state().queued_mutations@.len(),
            forall|k: int| 0 <= k < final(self).state().haulers@.len() ==> {
                &&& (#[trigger] final(self).state().haulers@[k]).dispatch == old(self).state().haulers@[k].dispatch
                &&& final(self).state().haulers@[k].position == old(self).state().haulers@[k].position
            },
    {
        let mut h: usize = 0;
        while h < self.world.haulers.len()
            invariant
                self.wf(),
                same_objects(old(self).state(), self.state()),
                self.catalog() == old(self).catalog(),
                self.policy() == old(self).policy(),
                self.counters() == old(self).counters(),
                self.state().batteries == old(self).state().batteries,
                self.state().queued_mutations@.len() >= old(self).state().queued_mutations@.len(),
                h <= self.world.haulers@.len(),
                forall|k: int| 0 <= k < self.state().haulers@.len() ==> {
                    &&& (#[trigger] self.state().haulers@[k]).dispatch == old(self).state().haulers@[k].dispatch
                    &&& self.state().haulers@[k].position == old(self).state().haulers@[k].position
                },
            decreases self.world.haulers@.len() - h,
        {
            let position = self.world.haulers[h].position;
            let id = self.world.haulers[h].id;
            match self.world.haulers[h].dispatch {
                DispatchReceiverState::Assigned(a) => {
                    if a.phase == DispatchPhase::Retrieve && self.nodes_in_transfer_range(position, a.source) {
                        match a.source {
                            NodeId::Factory(f) => {
                                if (f as usize) < self.world.factories.len() {
                                    let moved = self.world.factories[f as usize].production.inventory.transfer_up_to(
                                        &self.content, &mut self.world.haulers[h].cargo, a.item, 1);
                                    if moved > 0 {
                                        let mut line = crate::text::text("dispatch retrieve ");
                                        crate::text::push_u64(&mut line, moved as u64);
                                        crate::text::push_str(&mut line, " ");
                                        crate::text::push_str(&mut line, a.item.as_str());
                                        crate::text::push_str(&mut line, " from factory by ");
                                        push_hauler(&mut line, id);
                                        events.push(line);
                                    }
                                }
                            },
                            _ => {},
                        }
                    } else if a.phase == DispatchPhase::Deploy && self.nodes_in_transfer_range(position, a.destination) {
                        let mutation: Option<WorldMutation> = match a.destination {
                            NodeId::Source(i) => {
                                if a.item == MINING_DRILL {
                                    Some(WorldMutation::DeploySource(i))
                                } else if a.item == COAL_PLANT {
                                    Some(WorldMutation::SpawnGenerator { source_index: i, item: a.item, hauler_id: id })
                                } else {
                                    None
                                }
                            },
                            NodeId::BuildSite(i) => {
                                if a.item != MINING_DRILL && a.item != COAL_PLANT {
                                    Some(WorldMutation::SpawnStructure { site_index: i, item: a.item, hauler_id: id })
                                } else {
                                    None
                                }
                            },
                            _ => None,
                        };
                        match mutation {
                            Some(m) => {
                                if self.world.haulers[h].cargo.remove_exact(a.item, 1).is_ok() {
                                    self.world.queued_mutations.push(m);
                                    let mut line = crate::text::text("dispatch deploy ");
                                    crate::text::push_str(&mut line, a.item.as_str());
                                    crate::text::push_str(&mut line, " queued at ");
                                    crate::node::push_node(&mut line, a.destination);
                                    crate::text::push_str(&mut line, " by ");
                                    push_hauler(&mut line, id);
                                    events.push(line);
                                }
                            },
                            None => {},
                        }
                    }
                },
                DispatchReceiverState::Unassigned => {},
            }
            h = h + 1;
        }
    }

    /// Queues the end of depleted deposits, and then of empty drills on
    /// exhausted deposits.
    fn queue_source_lifecycle(&mut self)
        requires
            old(self).wf(),
        ensures
            final(self).wf(),
            final(self).state() == (WorldState { queued_mutations: final(self).state().queued_mutations, ..old(self).state() }),
            final(self).catalog() == old(self).catalog(),
            final(self).policy() == old(self).policy(),
            final(self).counters() == old(self).counters(),
            final(self).state().queued_mutations@.len() >= old(self).state().queued_mutations@.len(),
            forall|k: int| 0 <= k < old(self).state().queued_mutations@.len() ==>
                #[trigger] final(self).state().queued_mutations@[k] == old(self).state().queued_mutations@[k],
            final(self).state().queued_mutations@ == old(self).state().queued_mutations@ + lifecycle_changes(old(self).state().sources@),
    {
        let mut k: usize = 0;
        proof {
            assert(old(self).state().sources@.take(0) =~= Seq::<SourceNode>::empty());
            assert(self.state().queued_mutations@ =~= old(self).state().queued_mutations@ + lifecycle_changes(old(self).state().sources@.take(0)));
        }
        while k < self.world.sources.len()
            invariant
                self.state().queued_mutations@ == old(self).state().queued_mutations@
                    + lifecycle_changes(old(self).state().sources@.take(k as int)),
                self.wf(),
                self.state() == (WorldState { queued_mutations: self.state().queued_mutations, ..old(self).state() }),
                self.catalog() == old(self).catalog(),
                self.policy() == old(self).policy(),
                self.counters() == old(self).counters(),
                self.state().queued_mutations@.len() >= old(self).state().queued_mutations@.len(),
                forall|j: int| 0 <= j < old(self).state().queued_mutations@.len() ==>
                    #[trigger] self.state().queued_mutations@[j] == old(self).state().queued_mutations@[j],
                k <= self.world.sources@.len(),
            decreases self.world.sources@.len() - k,
        {
            let ghost before = self.state().queued_mutations@;
            proof {
                let t = old(self).state().sources@.take(k + 1);
                assert(t.drop_last() =~= old(self).state().sources@.take(k as int));
                assert(t.last() == self.state().sources@[k as int]);
            }
            let source = &self.world.sources[k];
            if k <= u16::MAX as usize {
                if !source.exhausted && source.mining.is_depleted() {
                    self.world.queued_mutations.push(WorldMutation::DeleteDepletedDeposit(k as u16));
                } else if source.exhausted && source.deployed && source.stockpile.is_empty() {
                    self.world.queued_mutations.push(WorldMutation::TeardownSource(k as u16));
                }
            }
            proof {
                assert(self.state().queued_mutations@ =~= before + lifecycle_change(self.state().sources@[k as int], k as int));
                assert(self.state().queued_mutations@ =~= old(self).state().queued_mutations@
                    + lifecycle_changes(old(self).state().sources@.take(k + 1)));
            }
            k = k + 1;
        }
        proof {
            assert(old(self).state().sources@.take(k as int) =~= old(self).state().sources@);
        }
    }

    /// Runs the factories that have drawn their production power, records
    /// blocked output on them, and counts what was crafted.
    fn advance_production(&mut self, events: &mut Vec<String>)
        requires
            old(self).wf(),
        ensures
            final(self).wf(),
            same_objects(old(self).state(), final(self).state()),
            final(self).catalog() == old(self).catalog(),
            final(self).policy() == old(self).policy(),
            final(self).state().queued_mutations == old(self).state().queued_mutations,
            final(self).state().haulers == old(self).state().haulers,
            // each factory runs one tick, or, when it wants power the grid
            // cannot give, stands still
            forall|k: int| 0 <= k < old(self).state().factories@.len() ==> {
                let before = old(self).state().factories@[k].production;
                let after = (#[trigger] final(self).state().factories@[k]).production;
                ||| exists|produced: u32| advanced_once(old(self).catalog(), before, after, produced)
                ||| (old(self).state().power is Some && after == before)
            },
    {
        let production_cost: u32 = match &self.world.power {
            Some(power) => power.spec.production_cost,
            None => 0,
        };
        let mut k: usize = 0;
        while k < self.world.factories.len()
            invariant
                self.wf(),
                same_objects(old(self).state(), self.state()),
                self.catalog() == old(self).catalog(),
                self.policy() == old(self).policy(),
                self.state().queued_mutations == old(self).state().queued_mutations,
                self.state().haulers == old(self).state().haulers,
                k <= self.world.factories@.len(),
                self.state().power is Some == old(self).state().power is Some,
                forall|j: int| k <= j < self.state().factories@.len()
                    ==> (#[trigger] self.state().factories@[j]).production == old(self).state().factories@[j].production,
                forall|j: int| 0 <= j < k ==> {
                    let before = old(self).state().factories@[j].production;
                    let after = (#[trigger] self.state().factories@[j]).production;
                    ||| exists|produced: u32| advanced_once(old(self).catalog(), before, after, produced)
                    ||| (old(self).state().power is Some && after == before)
                },
            decreases self.world.factories@.len() - k,
        {
            let ghost prev = self.state().factories@;
            let wants_power = self.world.factories[k].production.wants_power(&self.content);
            let node = self.world.factories[k].node;
            let powered = if wants_power {
                let consumer = crate::node::node_string(node);
                self.consume_power(node, production_cost, consumer.as_str(), events)
            } else {
                true
            };
            if powered {
                let tick = self.world.tick;
                assert(self.world.factories@[k as int].production.wf());
                let factory = &mut self.world.factories[k];
                let produced = factory.production.advance(&self.content, events);
                match factory.production.blocked {
                    Some(crate::production::ProductionBlockReason::OutputFull) => factory.alerts.record(tick, "product output full"),
                    Some(crate::production::ProductionBlockReason::NoOutputSpace) => factory.alerts.record(tick, "no space for product"),
                    None => {},
                }
                let output_item = factory.production.recipe.output_item;
                self.metrics.record_crafted(output_item, produced);
                proof {
                    assert(advanced_once(old(self).catalog(), old(self).state().factories@[k as int].production,
                        self.state().factories@[k as int].production, produced));
                }
            }
            proof {
                assert forall|j: int| 0 <= j < k + 1 implies ({
                    let before = old(self).state().factories@[j].production;
                    let after = (#[trigger] self.state().factories@[j]).production;
                    ||| exists|produced: u32| advanced_once(old(self).catalog(), before, after, produced)
                    ||| (old(self).state().power is Some && after == before)
                }) by {
                    if j < k {
                        assert(self.state().factories@[j].production == prev[j].production);
                    }
                }
            }
            k = k + 1;
        }
    }
}

/// Where an inserter takes items from: a deposit or another factory.
#[derive(Copy, Clone, Debug, PartialEq, Eq, Structural)]
enum AdjacentProvider {
    Source(usize),
    Factory(usize),
}

impl GameState {
    /// Whether deposit `s` touches factory `t` and holds an item.
    pub open spec fn source_offers(self, t: int, item: ItemId, s: int) -> bool {
        &&& crate::topology::adjacent_spec(self.cell(self.state().sources@[s].node), self.cell(self.state().factories@[t].node))
        &&& self.state().sources@[s].stockpile.model().count(item) > 0
    }

    /// Whether another factory `f` touches factory `t` and holds an item.
    pub open spec fn factory_offers(self, t: int, item: ItemId, f: int) -> bool {
        &&& f != t
        &&& crate::topology::adjacent_spec(self.cell(self.state().factories@[f].node), self.cell(self.state().factories@[t].node))
        &&& self.state().factories@[f].production.inventory.model().count(item) > 0
    }

    /// The transfers of an item into factory `t` from the first `n` deposits.
    spec fn source_transfers(self, t: int, item: ItemId, n: int) -> Seq<(usize, ItemId, AdjacentProvider)>
        decreases n,
    {
        if n <= 0 {
            Seq::empty()
        } else {
            self.source_transfers(t, item, n - 1)
                + (if self.source_offers(t, item, n - 1) { seq![(t as usize, item, AdjacentProvider::Source((n - 1) as usize))] } else { Seq::empty() })
        }
    }

    /// The transfers of an item into factory `t` from the first `n` factories.
    spec fn factory_transfers(self, t: int, item: ItemId, n: int) -> Seq<(usize, ItemId, AdjacentProvider)>
        decreases n,
    {
        if n <= 0 {
            Seq::empty()
        } else {
            self.factory_transfers(t, item, n - 1)
                + (if self.factory_offers(t, item, n - 1) { seq![(t as usize, item, AdjacentProvider::Factory((n - 1) as usize))] } else { Seq::empty() })
        }
    }

    /// The transfers into factory `t` for its first `m` recipe inputs.
    spec fn input_transfers(self, t: int, m: int) -> Seq<(usize, ItemId, AdjacentProvider)>
        decreases m,
    {
        if m <= 0 {
            Seq::empty()
        } else {
            let item = self.state().factories@[t].production.recipe.inputs@[m - 1].0;
            self.input_transfers(t, m - 1) + self.source_transfers(t, item, self.state().sources@.len() as int)
                + self.factory_transfers(t, item, self.state().factories@.len() as int)
        }
    }

    /// The transfers into the first `n` factories.
    spec fn all_transfers(self, n: int) -> Seq<(usize, ItemId, AdjacentProvider)>
        decreases n,
    {
        if n <= 0 {
            Seq::empty()
        } else {
            self.all_transfers(n - 1) + self.input_transfers(n - 1, self.state().factories@[n - 1].production.recipe.inputs@.len() as int)
        }
    }

    proof fn lemma_input_step(
        self,
        t: int,
        i: int,
        base: Seq<(usize, ItemId, AdjacentProvider)>,
        before_input: Seq<(usize, ItemId, AdjacentProvider)>,
        after_sources: Seq<(usize, ItemId, AdjacentProvider)>,
        now: Seq<(usize, ItemId, AdjacentProvider)>,
    )
        requires
            0 <= i,
            before_input == base + self.input_transfers(t, i),
            after_sources == before_input + self.source_transfers(t, self.state().factories@[t].production.recipe.inputs@[i].0,
                self.state().sources@.len() as int),
            now == after_sources + self.factory_transfers(t, self.state().factories@[t].production.recipe.inputs@[i].0,
                self.state().factories@.len() as int),
        ensures
            now == base + self.input_transfers(t, i + 1),
    {
        let item = self.state().factories@[t].production.recipe.inputs@[i].0;
        let a = self.input_transfers(t, i);
        let b = self.source_transfers(t, item, self.state().sources@.len() as int);
        let c = self.factory_transfers(t, item, self.state().factories@.len() as int);
        assert(self.input_transfers(t, i + 1) == a + b + c);
        assert(now =~= base + (a + b + c));
    }

    /// The transfers the inserters consider: for each factory, each recipe
    /// input, and each touching deposit and then touching factory that holds
    /// the input.
    #[verifier::spinoff_prover]
    fn inserter_transfers(&self) -> (r: Vec<(usize, ItemId, AdjacentProvider)>)
        ensures
            r@ == self.all_transfers(self.state().factories@.len() as int),
            forall|k: int| 0 <= k < r@.len() ==> {
                &&& (#[trigger] r@[k]).0 < self.state().factories@.len()
                &&& (r@[k].2 matches AdjacentProvider::Source(s) ==> s < self.state().sources@.len())
                &&& (r@[k].2 matches AdjacentProvider::Factory(f) ==> f < self.state().factories@.len() && f != r@[k].0)
            },
    {
        let mut transfers: Vec<(usize, ItemId, AdjacentProvider)> = Vec::new();
        let mut t: usize = 0;
        while t < self.world.factories.len()
            invariant
                t <= self.world.factories@.len(),
                transfers@ == self.all_transfers(t as int),
                forall|k: int| 0 <= k < transfers@.len() ==> {
                    &&& (#[trigger] transfers@[k]).0 < self.state().factories@.len()
                    &&& (transfers@[k].2 matches AdjacentProvider::Source(s) ==> s < self.state().sources@.len())
                    &&& (transfers@[k].2 matches AdjacentProvider::Factory(f) ==> f < self.state().factories@.len() && f != transfers@[k].0)
                },
            decreases self.world.factories@.len() - t,
        {
            let target_position = self.world.topology.position_or_origin(self.world.factories[t].node);
            let inputs = &self.world.factories[t].production.recipe.inputs;
            let ghost base = transfers@;
            let mut i: usize = 0;
            while i < inputs.len()
                invariant
                    t < self.world.factories@.len(),
                    i <= inputs@.len(),
                    *inputs == self.state().factories@[t as int].production.recipe.inputs,
                    target_position == self.cell(self.state().factories@[t as int].node),
                    base == self.all_transfers(t as int),
                    transfers@ == base + self.input_transfers(t as int, i as int),
                    forall|k: int| 0 <= k < transfers@.len() ==> {
                        &&& (#[trigger] transfers@[k]).0 < self.state().factories@.len()
                        &&& (transfers@[k].2 matches AdjacentProvider::Source(s) ==> s < self.state().sources@.len())
                        &&& (transfers@[k].2 matches AdjacentProvider::Factory(f) ==> f < self.state().factories@.len() && f != transfers@[k].0)
                    },
                decreases inputs@.len() - i,
            {
                let item = inputs[i].0;
                let ghost before_input = transfers@;
                let mut s: usize = 0;
                while s < self.world.sources.len()
                    invariant
                        t < self.world.factories@.len(),
                        s <= self.world.sources@.len(),
                        target_position == self.cell(self.state().factories@[t as int].node),
                        transfers@ == before_input + self.source_transfers(t as int, item, s as int),
                        forall|k: int| 0 <= k < transfers@.len() ==> {
                            &&& (#[trigger] transfers@[k]).0 < self.state().factories@.len()
                            &&& (transfers@[k].2 matches AdjacentProvider::Source(s) ==> s < self.state().sources@.len())
                            &&& (transfers@[k].2 matches AdjacentProvider::Factory(f) ==> f < self.state().factories@.len() && f != transfers@[k].0)
                        },
                    decreases self.world.sources@.len() - s,
                {
                    let source_position = self.world.topology.position_or_origin(self.world.sources[s].node);
                    if crate::topology::adjacent(source_position, target_position) && self.world.sources[s].stockpile.count(item) > 0 {
                        transfers.push((t, item, AdjacentProvider::Source(s)));
                    }
                    assert(transfers@ =~= before_input + self.source_transfers(t as int, item, s + 1));
                    s = s + 1;
                }
                let ghost after_sources = transfers@;
                let mut f: usize = 0;
                while f < self.world.factories.len()
                    invariant
                        t < self.world.factories@.len(),
                        f <= self.world.factories@.len(),
                        target_position == self.cell(self.state().factories@[t as int].node),
                        transfers@ == after_sources + self.factory_transfers(t as int, item, f as int),
                        forall|k: int| 0 <= k < transfers@.len() ==> {
                            &&& (#[trigger] transfers@[k]).0 < self.state().factories@.len()
                            &&& (transfers@[k].2 matches AdjacentProvider::Source(s) ==> s < self.state().sources@.len())
                            &&& (transfers@[k].2 matches AdjacentProvider::Factory(f) ==> f < self.state().factories@.len() && f != transfers@[k].0)
                        },
                    decreases self.world.factories@.len() - f,
                {
                    if f != t {
                        let source_position = self.world.topology.position_or_origin(self.world.factories[f].node);
                        if crate::topology::adjacent(source_position, target_position)
                            && self.world.factories[f].production.inventory.count(item) > 0 {
                            transfers.push((t, item, AdjacentProvider::Factory(f)));
                        }
                    }
                    assert(transfers@ =~= after_sources + self.factory_transfers(t as int, item, f + 1));
                    f = f + 1;
                }
                proof {
                    self.lemma_input_step(t as int, i as int, base, before_input, after_sources, transfers@);
                }
                i = i + 1;
            }
            assert(transfers@ =~= self.all_transfers(t + 1));
            t = t + 1;
        }
        transfers
    }

    /// Inserters move up to five units of an input per transfer into a
    /// factory below its input buffer, from a touching deposit or factory,
    /// each after drawing one unit of power for the factory.
    fn advance_inserters(&mut self, events: &mut Vec<String>)
        requires
            old(self).wf(),
        ensures
            final(self).wf(),
            same_objects(old(self).state(), final(self).state()),
            final(self).catalog() == old(self).catalog(),
            final(self).policy() == old(self).policy(),
            final(self).state().queued_mutations == old(self).state().queued_mutations,
            final(self).state().haulers == old(self).state().haulers,
    {
        let transfers = self.inserter_transfers();
        let mut k: usize = 0;
        while k < transfers.len()
            invariant
                self.wf(),
                same_objects(old(self).state(), self.state()),
                self.catalog() == old(self).catalog(),
                self.policy() == old(self).policy(),
                self.state().queued_mutations == old(self).state().queued_mutations,
                self.state().haulers == old(self).state().haulers,
                k <= transfers@.len(),
                forall|j: int| 0 <= j < transfers@.len() ==> {
                    &&& (#[trigger] transfers@[j]).0 < self.state().factories@.len()
                    &&& (transfers@[j].2 matches AdjacentProvider::Source(s) ==> s < self.state().sources@.len())
                    &&& (transfers@[j].2 matches AdjacentProvider::Factory(f) ==> f < self.state().factories@.len() && f != transfers@[j].0)
                },
            decreases transfers@.len() - k,
        {
            let (t, item, provider) = transfers[k];
            let target_node = self.world.factories[t].node;
            let stocked = self.world.factories[t].production.inventory.count(item);
            let buffer = self.world.factories[t].input_buffer;
            let needed: u32 = if buffer > stocked { buffer - stocked } else { 0 };
            if needed > 0 {
                let mut consumer = crate::text::text("inserter-");
                crate::node::push_node(&mut consumer, target_node);
                if self.consume_power(target_node, 1, consumer.as_str(), events) {
                    let quantity: u32 = if needed < 5 { needed } else { 5 };
                    let mut target_inventory = self.world.factories[t].production.inventory;
                    let (moved, from) = match provider {
                        AdjacentProvider::Source(s) => {
                            let moved = self.world.sources[s].stockpile.transfer_up_to(&self.content, &mut target_inventory, item, quantity);
                            (moved, self.world.sources[s].node)
                        },
                        AdjacentProvider::Factory(f) => {
                            let mut source_inventory = self.world.factories[f].production.inventory;
                            let moved = source_inventory.transfer_up_to(&self.content, &mut target_inventory, item, quantity);
                            self.world.factories[f].production.inventory = source_inventory;
                            (moved, self.world.factories[f].node)
                        },
                    };
                    self.world.factories[t].production.inventory = target_inventory;
                    if moved > 0 {
                        let mut line = crate::text::text("inserter move ");
                        crate::text::push_str(&mut line, item.as_str());
                        crate::text::push_str(&mut line, " +");
                        crate::text::push_u64(&mut line, moved as u64);
                        crate::text::push_str(&mut line, " ");
                        crate::node::push_node(&mut line, from);
                        crate::text::push_str(&mut line, " -> ");
                        crate::node::push_node(&mut line, target_node);
                        events.push(line);
                    }
                }
            }
            k = k + 1;
        }
    }
}

/// Whether a drill or generator may be deployed on a deposit: nothing stands
/// on it and it still holds ore.
pub open spec fn source_at(node: NodeId) -> spec_fn(SourceNode) -> bool {
    |s: SourceNode| s.node == node
}

/// The index of the first source with a node, if any.
pub open spec fn first_source(sources: Seq<SourceNode>, node: NodeId) -> Option<int> {
    crate::tally::first_index(sources, source_at(node))
}

pub open spec fn hauler_at(id: u16, from: NodeId) -> spec_fn(Hauler) -> bool {
    |h: Hauler| h.id == id && h.position == from
}

/// Whether a source is the first one with a node.
pub open spec fn is_first_source(sources: Seq<SourceNode>, node: NodeId, k: int) -> bool {
    first_source(sources, node) == Some(k)
}

/// The deployed flag of source `k` after a change: a drill is deployed on the
/// first source of the node if it could take one, and torn down from it.
pub open spec fn deployed_after(sources: Seq<SourceNode>, m: WorldMutation, k: int) -> bool {
    match m {
        WorldMutation::DeploySource(i) => sources[k].deployed
            || (is_first_source(sources, NodeId::Source(i), k) && deployable(sources[k])),
        WorldMutation::TeardownSource(i) => sources[k].deployed && !is_first_source(sources, NodeId::Source(i), k),
        _ => sources[k].deployed,
    }
}

/// The exhausted flag of source `k` after a change: deleting a depleted
/// deposit marks the first source of its node.
pub open spec fn exhausted_after(sources: Seq<SourceNode>, m: WorldMutation, k: int) -> bool {
    match m {
        WorldMutation::DeleteDepletedDeposit(i) => sources[k].exhausted || is_first_source(sources, NodeId::Source(i), k),
        _ => sources[k].exhausted,
    }
}

/// Where hauler `h` stands after a change: a move takes the first hauler with
/// the id standing where the move starts to where it ends.
pub open spec fn position_after(haulers: Seq<Hauler>, m: WorldMutation, h: int) -> NodeId {
    match m {
        WorldMutation::MoveHauler { hauler_id, from, to, .. } =>
            if crate::tally::first_index(haulers, hauler_at(hauler_id, from)) == Some(h) { to } else { haulers[h].position },
        _ => haulers[h].position,
    }
}

/// The sources after a change, as far as their exhausted flags go.
pub open spec fn mark_exhausted(sources: Seq<SourceNode>, m: WorldMutation) -> Seq<SourceNode> {
    Seq::new(sources.len(), |k: int| SourceNode { exhausted: exhausted_after(sources, m, k), ..sources[k] })
}

/// The sources after a run of changes in order, as far as their exhausted
/// flags go.
pub open spec fn exhausted_through(sources: Seq<SourceNode>, changes: Seq<WorldMutation>) -> Seq<SourceNode>
    decreases changes.len(),
{
    if changes.len() == 0 {
        sources
    } else {
        mark_exhausted(exhausted_through(sources, changes.drop_last()), changes.last())
    }
}

/// The haulers after a change, as far as where they stand goes.
pub open spec fn move_haulers(haulers: Seq<Hauler>, m: WorldMutation) -> Seq<Hauler> {
    Seq::new(haulers.len(), |h: int| Hauler { position: position_after(haulers, m, h), ..haulers[h] })
}

/// The haulers after a run of changes in order, as far as where they stand
/// goes.
pub open spec fn positions_through(haulers: Seq<Hauler>, changes: Seq<WorldMutation>) -> Seq<Hauler>
    decreases changes.len(),
{
    if changes.len() == 0 {
        haulers
    } else {
        move_haulers(positions_through(haulers, changes.drop_last()), changes.last())
    }
}

proof fn lemma_through_shape(sources: Seq<SourceNode>, haulers: Seq<Hauler>, changes: Seq<WorldMutation>)
    ensures
        exhausted_through(sources, changes).len() == sources.len(),
        forall|k: int| 0 <= k < sources.len() ==> (#[trigger] exhausted_through(sources, changes)[k]).node == sources[k].node,
        positions_through(haulers, changes).len() == haulers.len(),
        forall|h: int| 0 <= h < haulers.len() ==> (#[trigger] positions_through(haulers, changes)[h]).id == haulers[h].id,
    decreases changes.len(),
{
    if changes.len() > 0 {
        lemma_through_shape(sources, haulers, changes.drop_last());
    }
}

/// A change acts alike on two lists of sources that agree in nodes and
/// exhausted flags.
proof fn lemma_exhausted_alike(a: Seq<SourceNode>, b: Seq<SourceNode>, m: WorldMutation)
    requires
        a.len() == b.len(),
        forall|k: int| 0 <= k < a.len() ==> (#[trigger] a[k]).node == b[k].node && a[k].exhausted == b[k].exhausted,
    ensures
        forall|k: int| 0 <= k < a.len() ==> exhausted_after(a, m, k) == (#[trigger] mark_exhausted(b, m)[k]).exhausted,
{
    if let WorldMutation::DeleteDepletedDeposit(i) = m {
        assert forall|j: int| 0 <= j < a.len() implies source_at(NodeId::Source(i))(#[trigger] a[j]) == source_at(NodeId::Source(i))(b[j]) by {
            assert(a[j].node == b[j].node);
        }
        crate::tally::lemma_first_index_pointwise(a, source_at(NodeId::Source(i)), b, source_at(NodeId::Source(i)));
    }
}

/// A change acts alike on two lists of haulers that agree in ids and
/// positions.
proof fn lemma_positions_alike(a: Seq<Hauler>, b: Seq<Hauler>, m: WorldMutation)
    requires
        a.len() == b.len(),
        forall|h: int| 0 <= h < a.len() ==> (#[trigger] a[h]).id == b[h].id && a[h].position == b[h].position,
    ensures
        forall|h: int| 0 <= h < a.len() ==> position_after(a, m, h) == (#[trigger] move_haulers(b, m)[h]).position,
{
    if let WorldMutation::MoveHauler { hauler_id, from, to, target } = m {
        assert forall|j: int| 0 <= j < a.len() implies hauler_at(hauler_id, from)(#[trigger] a[j]) == hauler_at(hauler_id, from)(b[j]) by {
            assert(a[j].id == b[j].id && a[j].position == b[j].position);
        }
        crate::tally::lemma_first_index_pointwise(a, hauler_at(hauler_id, from), b, hauler_at(hauler_id, from));
    }
}

/// How many of the promises are of an item from factory `f`.
fn promised_from(taken: &Vec<(usize, ItemId)>, f: usize, item: ItemId) -> (r: u64)
    ensures
        r == promised(taken@, f as int, item),
{
    let mut count: u64 = 0;
    let mut t: usize = 0;
    while t < taken.len()
        invariant
            t <= taken@.len(),
            count == promised(taken@.take(t as int), f as int, item),
            count <= t,
        decreases taken@.len() - t,
    {
        proof {
            crate::tally::lemma_prefix_step(taken@, t as int, promise_of(f as int, item), |p: (usize, ItemId)| 0nat);
            crate::tally::lemma_count_where_bound(taken@.take(t as int), promise_of(f as int, item));
        }
        if taken[t].0 == f && taken[t].1 == item {
            count = count + 1;
        }
        t = t + 1;
    }
    proof {
        assert(taken@.take(t as int) =~= taken@);
    }
    count
}

/// Whether a hauler has an id.
pub open spec fn hauler_with(id: u16) -> spec_fn(Hauler) -> bool {
    |h: Hauler| h.id == id
}

/// Whether a generator burns an item.
pub open spec fn burns(item: ItemId) -> spec_fn(crate::power::PowerGenerator) -> bool {
    |g: crate::power::PowerGenerator| g.spec.fuel_item == Some(item)
}

/// Whether a factory's recipe takes an item in.
pub open spec fn consumes(item: ItemId) -> spec_fn(FactoryNode) -> bool {
    |f: FactoryNode| exists|i: int| 0 <= i < f.production.recipe.inputs@.len() && (#[trigger] f.production.recipe.inputs@[i]).0 == item
}

/// Whether a promise is of an item from factory `f`.
pub open spec fn promise_of(f: int, item: ItemId) -> spec_fn((usize, ItemId)) -> bool {
    |p: (usize, ItemId)| p.0 == f && p.1 == item
}

/// How many of the promises are of an item from factory `f`.
pub open spec fn promised(taken: Seq<(usize, ItemId)>, f: int, item: ItemId) -> nat {
    crate::tally::count_where(taken, promise_of(f, item))
}

pub open spec fn deployable(s: SourceNode) -> bool {
    &&& !s.deployed
    &&& s.occupied_by is None
    &&& !s.exhausted
    &&& s.mining.deposit != Deposit::Finite(0)
}

/// Whether a node is a deployable deposit of an item.
/// What a hauler brings of an item to a destination: a full load while
/// collecting for it, its cargo of the item while delivering there, and
/// nothing otherwise.
pub open spec fn in_flight(item: ItemId, destination: NodeId) -> spec_fn(Hauler) -> nat {
    |h: Hauler| match h.dispatch {
        DispatchReceiverState::Assigned(a) => if a.item == item && a.destination == destination {
            match a.phase {
                DispatchPhase::Collect => h.carry_limit as nat,
                DispatchPhase::Deliver => h.cargo.model().count(item) as nat,
                _ => 0nat,
            }
        } else {
            0nat
        },
        DispatchReceiverState::Unassigned => 0nat,
    }
}

/// What is still missing of a need once `covered` is under way.
pub open spec fn short_of(need: int, covered: nat) -> int {
    if need > covered { need - covered } else { 0 }
}

/// Whether a structure stands at a node.
pub open spec fn structure_at(node: NodeId) -> spec_fn(StructureSnapshot) -> bool {
    |s: StructureSnapshot| s.node == node
}

/// What the `k`th deposit asks of the world's lifecycle: a depleted deposit
/// that is not yet marked is deleted, and an empty drill on an exhausted one
/// is torn down. Deposits past the last node number ask nothing.
pub open spec fn lifecycle_change(s: SourceNode, k: int) -> Seq<WorldMutation> {
    if k > u16::MAX as int {
        Seq::empty()
    } else if !s.exhausted && s.mining.deposit == Deposit::Finite(0) {
        seq![WorldMutation::DeleteDepletedDeposit(k as u16)]
    } else if s.exhausted && s.deployed && s.stockpile.model().is_empty() {
        seq![WorldMutation::TeardownSource(k as u16)]
    } else {
        Seq::empty()
    }
}

/// The lifecycle changes of the deposits, in order.
pub open spec fn lifecycle_changes(sources: Seq<SourceNode>) -> Seq<WorldMutation>
    decreases sources.len(),
{
    if sources.len() == 0 {
        Seq::empty()
    } else {
        lifecycle_changes(sources.drop_last()) + lifecycle_change(sources.last(), sources.len() - 1)
    }
}

/// Whether a coal plant can be placed on the deposit of a node: the item is a
/// coal plant, the first deposit of the node is coal and free, and the world
/// has a power grid with room for another generator.
pub open spec fn coal_plant_fits(w: WorldState, source_index: u16, item: ItemId) -> bool {
    &&& item == COAL_PLANT
    &&& first_source(w.sources@, NodeId::Source(source_index)) matches Some(s) && {
        let d = w.sources@[s];
        d.item == COAL && !d.deployed && d.occupied_by is None && !d.exhausted && d.mining.deposit != Deposit::Finite(0)
    }
    &&& w.power matches Some(p) && p.generators@.len() < u16::MAX
}

/// Whether a deposit has mined once: its extractor took what it could from
/// the deposit into the stockpile, as far as the stockpile had room.
pub open spec fn mined_once(content: ContentDatabase, before: SourceNode, after: SourceNode) -> bool {
    let m = before.mining;
    let a = if available_to_mine(m) == 0 { 0 } else {
        before.stockpile.model().max_insertable(content, m.item, available_to_mine(m))
    };
    &&& after.stockpile.model() == before.stockpile.model().added(m.item, a)
    &&& after.mining.item == m.item
    &&& after.mining.speed == m.speed
    &&& after.mining.deposit == (match m.deposit {
        Deposit::Finite(remaining) => Deposit::Finite((remaining - a) as u32),
        Deposit::Manifest => Deposit::Manifest,
    })
}

/// Whether a deposit at a node could take a deployment.
pub open spec fn deployable_at(s: SourceNode, target: NodeId) -> bool {
    s.node == target && deployable(s)
}

/// Whether a deposit of an item could be claimed by a radar: deployable and
/// not claimed already.
pub open spec fn claim_candidate(s: SourceNode, item: ItemId, claimed: Seq<NodeId>) -> bool {
    s.item == item && deployable(s) && !claimed.contains(s.node)
}

pub open spec fn claimable(sources: Seq<SourceNode>, target: NodeId, item: ItemId) -> bool {
    exists|k: int| 0 <= k < sources.len() && sources[k].node == target && sources[k].item == item && deployable(sources[k])
}

/// No two radars claim the same target.
pub open spec fn claims_distinct(radars: Seq<DeploymentRadar>) -> bool {
    forall|i: int, j: int| 0 <= i < j < radars.len() && radars[i].claimed_target is Some
        ==> radars[i].claimed_target != radars[j].claimed_target
}

/// Every claim is a deployable deposit of the radar's target item.
pub open spec fn claims_valid(radars: Seq<DeploymentRadar>, sources: Seq<SourceNode>) -> bool {
    forall|k: int| 0 <= k < radars.len() && (#[trigger] radars[k]).claimed_target is Some
        ==> claimable(sources, radars[k].claimed_target->0, radars[k].target_item)
}

/// Whether some radar claims a target.
pub open spec fn claimed_by_any(radars: Seq<DeploymentRadar>, target: NodeId) -> bool {
    exists|j: int| 0 <= j < radars.len() && radars[j].claimed_target == Some(target)
}

fn contains_node(nodes: &Vec<NodeId>, node: NodeId) -> (r: bool)
    ensures
        r == nodes@.contains(node),
{
    let mut k: usize = 0;
    while k < nodes.len()
        invariant
            k <= nodes@.len(),
            forall|j: int| 0 <= j < k ==> nodes@[j] != node,
        decreases nodes@.len() - k,
    {
        if nodes[k] == node {
            return true;
        }
        k = k + 1;
    }
    false
}

impl GameState {
    /// The item of the last deployable deposit at a node.
    fn deployable_item(&self, target: NodeId) -> (r: Option<ItemId>)
        ensures
            r matches Some(item) ==> claimable(self.state().sources@, target, item),
            r is None <==> forall|k: int| 0 <= k < self.state().sources@.len()
                ==> !deployable_at(#[trigger] self.state().sources@[k], target),
            r matches Some(item) ==> exists|k: int| 0 <= k < self.state().sources@.len()
                && deployable_at(#[trigger] self.state().sources@[k], target) && self.state().sources@[k].item == item
                && forall|j: int| k < j < self.state().sources@.len() ==> !deployable_at(#[trigger] self.state().sources@[j], target),
    {
        let mut found: Option<ItemId> = None;
        let ghost mut last: int = -1;
        let mut k: usize = 0;
        while k < self.world.sources.len()
            invariant
                k <= self.world.sources@.len(),
                found matches Some(item) ==> claimable(self.state().sources@, target, item),
                found is None <==> forall|j: int| 0 <= j < k ==> !deployable_at(#[trigger] self.state().sources@[j], target),
                found matches Some(item) ==> 0 <= last < k && deployable_at(self.state().sources@[last], target)
                    && self.state().sources@[last].item == item
                    && forall|j: int| last < j < k ==> !deployable_at(#[trigger] self.state().sources@[j], target),
            decreases self.world.sources@.len() - k,
        {
            let s = &self.world.sources[k];
            if s.node == target && !s.deployed && s.occupied_by.is_none() && !s.exhausted && !s.mining.is_depleted() {
                proof {
                    assert(deployable(self.state().sources@[k as int]));
                    assert(deployable_at(self.state().sources@[k as int], target));
                    last = k as int;
                }
                found = Some(s.item);
            }
            k = k + 1;
        }
        found
    }

    /// The nearest deployable deposit of an item that no radar in `claimed`
    /// holds, ties to the smaller node.
    fn nearest_claimable(&self, radar: NodeId, item: ItemId, claimed: &Vec<NodeId>) -> (r: Option<NodeId>)
        ensures
            r matches Some(t) ==> claimable(self.state().sources@, t, item) && !claimed@.contains(t),
            r is None <==> forall|k: int| 0 <= k < self.state().sources@.len()
                ==> !claim_candidate(#[trigger] self.state().sources@[k], item, claimed@),
            r matches Some(t) ==> forall|k: int| 0 <= k < self.state().sources@.len()
                && claim_candidate(#[trigger] self.state().sources@[k], item, claimed@)
                ==> self.node_distance(radar, t) <= self.node_distance(radar, self.state().sources@[k].node),
    {
        let mut best: Option<(NodeId, u128)> = None;
        let mut k: usize = 0;
        while k < self.world.sources.len()
            invariant
                k <= self.world.sources@.len(),
                best matches Some((t, _)) ==> claimable(self.state().sources@, t, item) && !claimed@.contains(t),
                best is None <==> forall|j: int| 0 <= j < k ==> !claim_candidate(#[trigger] self.state().sources@[j], item, claimed@),
                best matches Some((t, d)) ==> d == self.node_distance(radar, t) && forall|j: int| 0 <= j < k
                    && claim_candidate(#[trigger] self.state().sources@[j], item, claimed@)
                    ==> d <= self.node_distance(radar, self.state().sources@[j].node),
            decreases self.world.sources@.len() - k,
        {
            let s = &self.world.sources[k];
            if s.item == item && !s.deployed && s.occupied_by.is_none() && !s.exhausted && !s.mining.is_depleted()
                && !contains_node(claimed, s.node) {
                proof {
                    assert(deployable(self.state().sources@[k as int]));
                    assert(claim_candidate(self.state().sources@[k as int], item, claimed@));
                }
                let (d, _) = self.dispatch_distance(radar, s.node);
                proof {
                    reveal(GameState::node_distance);
                }
                let better = match best {
                    None => true,
                    Some((t, bd)) => d < bd || (d == bd && crate::node::node_lt(s.node, t)),
                };
                if better {
                    best = Some((s.node, d));
                }
            }
            k = k + 1;
        }
        match best {
            Some((t, _)) => Some(t),
            None => None,
        }
    }

    /// Radars keep claims that are still deployable and not claimed by an
    /// earlier radar, release the rest, and then each radar without a claim
    /// claims the nearest unclaimed deployable deposit of its target item.
    /// Each radar then advertises the deployment to its claim.
    fn refresh_radar_claims(&mut self, events: &mut Vec<String>)
        requires
            old(self).wf(),
        ensures
            final(self).wf(),
            same_objects(old(self).state(), final(self).state()),
            final(self).catalog() == old(self).catalog(),
            final(self).policy() == old(self).policy(),
            final(self).counters() == old(self).counters(),
            final(self).state() == (WorldState { radars: final(self).state().radars, ..old(self).state() }),
            claims_distinct(final(self).state().radars@),
            claims_valid(final(self).state().radars@, final(self).state().sources@),
    {
        let tick = self.world.tick;
        let n = self.world.radars.len();
        let mut claimed: Vec<NodeId> = Vec::new();
        let mut k: usize = 0;
        while k < n
            invariant
                self.wf(),
                same_objects(old(self).state(), self.state()),
                self.catalog() == old(self).catalog(),
                self.policy() == old(self).policy(),
                self.counters() == old(self).counters(),
                self.state() == (WorldState { radars: self.state().radars, ..old(self).state() }),
                n == self.world.radars@.len(),
                tick == self.world.tick,
                k <= n,
                claims_distinct(self.state().radars@.take(k as int)),
                forall|j: int| 0 <= j < k && (#[trigger] self.state().radars@[j]).claimed_target is Some
                    ==> claimable(self.state().sources@, self.state().radars@[j].claimed_target->0, self.state().radars@[j].target_item),
                forall|t: NodeId| claimed@.contains(t) <==> claimed_by_any(self.state().radars@.take(k as int), t),
            decreases n - k,
        {
            let current = self.world.radars[k].claimed_target;
            let target_item = self.world.radars[k].target_item;
            let ghost before = self.state().radars@;
            let ghost old_claimed = claimed@;
            match current {
                Some(target) => {
                    let keep = match self.deployable_item(target) {
                        Some(item) => item == target_item && !contains_node(&claimed, target),
                        None => false,
                    };
                    if keep {
                        claimed.push(target);
                    } else {
                        let radar = &mut self.world.radars[k];
                        radar.claimed_target = None;
                        let mut message = crate::text::text("released ");
                        crate::node::push_node(&mut message, target);
                        radar.alerts.record(tick, message.as_str());
                        let mut line = crate::text::text("radar ");
                        crate::node::push_node(&mut line, radar.node);
                        crate::text::push_str(&mut line, " released ");
                        crate::node::push_node(&mut line, target);
                        events.push(line);
                    }
                },
                None => {},
            }
            proof {
                let after = self.state().radars@;
                let pre = after.take(k + 1);
                let old_pre = before.take(k as int);
                assert(pre.drop_last() =~= old_pre);
                assert(after.take(k as int) =~= old_pre);
                assert forall|t: NodeId| claimed@.contains(t) <==> claimed_by_any(pre, t) by {
                    if claimed_by_any(pre, t) {
                        let j = choose|j: int| 0 <= j < pre.len() && pre[j].claimed_target == Some(t);
                        if j < k {
                            assert(old_pre[j] == pre[j]);
                            assert(claimed_by_any(old_pre, t));
                            assert(old_claimed.contains(t));
                            let c = choose|c: int| 0 <= c < old_claimed.len() && old_claimed[c] == t;
                            assert(claimed@[c] == t);
                        } else {
                            assert(claimed@[claimed@.len() - 1] == t);
                        }
                    }
                    if claimed@.contains(t) {
                        let c = choose|c: int| 0 <= c < claimed@.len() && claimed@[c] == t;
                        if after[k as int].claimed_target == Some(t) {
                            assert(pre[k as int].claimed_target == Some(t));
                        } else {
                            if c < old_claimed.len() {
                                assert(old_claimed[c] == t);
                            }
                            assert(old_claimed.contains(t));
                            assert(claimed_by_any(old_pre, t));
                            let j = choose|j: int| 0 <= j < old_pre.len() && old_pre[j].claimed_target == Some(t);
                            assert(pre[j].claimed_target == Some(t));
                        }
                    }
                }
                assert forall|i: int, j: int| 0 <= i < j < pre.len() && pre[i].claimed_target is Some
                    implies pre[i].claimed_target != pre[j].claimed_target by {
                    if j == k && after[k as int].claimed_target is Some {
                        let t = after[k as int].claimed_target->0;
                        assert(old_pre[i].claimed_target == pre[i].claimed_target);
                        if pre[i].claimed_target == Some(t) {
                            assert(claimed_by_any(old_pre, t));
                        }
                    } else if j < k {
                        assert(old_pre[i] == pre[i] && old_pre[j] == pre[j]);
                    }
                }
                assert forall|j: int| 0 <= j < k + 1 && (#[trigger] after[j]).claimed_target is Some
                    implies claimable(self.state().sources@, after[j].claimed_target->0, after[j].target_item) by {
                    if j < k {
                        assert(before[j] == after[j]);
                    }
                }
            }
            k = k + 1;
        }
        assert(self.state().radars@.take(n as int) =~= self.state().radars@);
        let mut k: usize = 0;
        while k < n
            invariant
                self.wf(),
                same_objects(old(self).state(), self.state()),
                self.catalog() == old(self).catalog(),
                self.policy() == old(self).policy(),
                self.counters() == old(self).counters(),
                self.state() == (WorldState { radars: self.state().radars, ..old(self).state() }),
                n == self.world.radars@.len(),
                tick == self.world.tick,
                k <= n,
                claims_distinct(self.state().radars@),
                claims_valid(self.state().radars@, self.state().sources@),
                forall|t: NodeId| claimed@.contains(t) <==> claimed_by_any(self.state().radars@, t),
            decreases n - k,
        {
            if self.world.radars[k].claimed_target.is_none() {
                let radar_node = self.world.radars[k].node;
                let target_item = self.world.radars[k].target_item;
                match self.nearest_claimable(radar_node, target_item, &claimed) {
                    Some(target) => {
                        let ghost before = self.state().radars@;
                        let ghost old_claimed = claimed@;
                        claimed.push(target);
                        let radar = &mut self.world.radars[k];
                        radar.claimed_target = Some(target);
                        let mut message = crate::text::text("claimed ");
                        crate::node::push_node(&mut message, target);
                        radar.alerts.record(tick, message.as_str());
                        let mut line = crate::text::text("radar ");
                        crate::node::push_node(&mut line, radar.node);
                        crate::text::push_str(&mut line, " claimed ");
                        crate::node::push_node(&mut line, target);
                        crate::text::push_str(&mut line, " for ");
                        crate::text::push_str(&mut line, radar.deployment_item.as_str());
                        events.push(line);
                        proof {
                            let after = self.state().radars@;
                            assert(!claimed_by_any(before, target));
                            assert forall|i: int, j: int| 0 <= i < j < after.len() && after[i].claimed_target is Some
                                implies after[i].claimed_target != after[j].claimed_target by {
                                if i == k {
                                    assert(before[j].claimed_target == after[j].claimed_target);
                                    if after[j].claimed_target == Some(target) {
                                        assert(claimed_by_any(before, target));
                                    }
                                } else if j == k {
                                    assert(before[i].claimed_target == after[i].claimed_target);
                                    if after[i].claimed_target == Some(target) {
                                        assert(claimed_by_any(before, target));
                                    }
                                } else {
                                    assert(before[i] == after[i] && before[j] == after[j]);
                                }
                            }
                            assert forall|m: int| 0 <= m < after.len() && (#[trigger] after[m]).claimed_target is Some
                                implies claimable(self.state().sources@, after[m].claimed_target->0, after[m].target_item) by {
                                if m != k {
                                    assert(before[m] == after[m]);
                                }
                            }
                            assert forall|t: NodeId| claimed@.contains(t) <==> claimed_by_any(after, t) by {
                                if claimed_by_any(after, t) {
                                    let j = choose|j: int| 0 <= j < after.len() && after[j].claimed_target == Some(t);
                                    if j == k {
                                        assert(claimed@[claimed@.len() - 1] == t);
                                    } else {
                                        assert(before[j] == after[j]);
                                        assert(claimed_by_any(before, t));
                                        assert(old_claimed.contains(t));
                                        let c = choose|c: int| 0 <= c < old_claimed.len() && old_claimed[c] == t;
                                        assert(claimed@[c] == t);
                                    }
                                }
                                if claimed@.contains(t) {
                                    let c = choose|c: int| 0 <= c < claimed@.len() && claimed@[c] == t;
                                    if c == claimed@.len() - 1 {
                                        assert(after[k as int].claimed_target == Some(t));
                                    } else {
                                        assert(old_claimed[c] == t);
                                        assert(old_claimed.contains(t));
                                        assert(claimed_by_any(before, t));
                                        let j = choose|j: int| 0 <= j < before.len() && before[j].claimed_target == Some(t);
                                        assert(after[j].claimed_target == Some(t));
                                    }
                                }
                            }
                        }
                    },
                    None => {},
                }
            }
            k = k + 1;
        }
        let mut k: usize = 0;
        while k < n
            invariant
                self.wf(),
                same_objects(old(self).state(), self.state()),
                self.catalog() == old(self).catalog(),
                self.policy() == old(self).policy(),
                self.counters() == old(self).counters(),
                self.state() == (WorldState { radars: self.state().radars, ..old(self).state() }),
                n == self.world.radars@.len(),
                k <= n,
                claims_distinct(self.state().radars@),
                claims_valid(self.state().radars@, self.state().sources@),
            decreases n - k,
        {
            let ghost before = self.state().radars@;
            self.world.radars[k].refresh_dispatch();
            proof {
                let after = self.state().radars@;
                assert forall|j: int| 0 <= j < after.len() implies #[trigger] after[j].claimed_target == before[j].claimed_target
                    && after[j].target_item == before[j].target_item by {
                    if j != k {
                        assert(after[j] == before[j]);
                    }
                }
            }
            k = k + 1;
        }
    }
}

impl GameState {
    /// Where a deposit's output goes: the first generator that burns it, else
    /// the first factory that needs it, else the first factory.
    pub open spec fn destination_of(self, item: ItemId) -> NodeId {
        let by_generator = match self.state().power {
            Some(power) => match first_index(power.generators@, burns(item)) {
                Some(g) => Some(power.generators@[g].node),
                None => None,
            },
            None => None,
        };
        match by_generator {
            Some(node) => node,
            None => match first_index(self.state().factories@, consumes(item)) {
                Some(f) => self.state().factories@[f].node,
                None => NodeId::Factory(0),
            },
        }
    }

    /// Where a deposit's output goes: the first generator that burns it, else
    /// the first factory that needs it, else the first factory.
    fn source_destination(&self, item: ItemId) -> (r: NodeId)
        ensures
            r == self.destination_of(item),
    {
        match &self.world.power {
            Some(power) => {
                let mut g: usize = 0;
                while g < power.generators.len()
                    invariant
                        g <= power.generators@.len(),
                        self.state().power == Some(*power),
                        forall|j: int| 0 <= j < g ==> !burns(item)(#[trigger] power.generators@[j]),
                    decreases power.generators@.len() - g,
                {
                    if power.generators[g].spec.fuel_item == Some(item) {
                        proof {
                            assert(burns(item)(power.generators@[g as int]));
                            lemma_first_index(power.generators@, burns(item), g as int);
                        }
                        return power.generators[g].node;
                    }
                    g = g + 1;
                }
                proof {
                    lemma_first_index(power.generators@, burns(item), g as int);
                }
            },
            None => {},
        }
        let mut f: usize = 0;
        while f < self.world.factories.len()
            invariant
                f <= self.world.factories@.len(),
                forall|j: int| 0 <= j < f ==> !consumes(item)(#[trigger] self.state().factories@[j]),
                match self.state().power {
                    Some(power) => first_index(power.generators@, burns(item)) is None,
                    None => true,
                },
            decreases self.world.factories@.len() - f,
        {
            let inputs = &self.world.factories[f].production.recipe.inputs;
            let mut i: usize = 0;
            while i < inputs.len()
                invariant
                    i <= inputs@.len(),
                    f < self.world.factories@.len(),
                    *inputs == self.state().factories@[f as int].production.recipe.inputs,
                    forall|j: int| 0 <= j < i ==> (#[trigger] inputs@[j]).0 != item,
                    forall|j: int| 0 <= j < f ==> !consumes(item)(#[trigger] self.state().factories@[j]),
                    match self.state().power {
                        Some(power) => first_index(power.generators@, burns(item)) is None,
                        None => true,
                    },
                decreases inputs@.len() - i,
            {
                if inputs[i].0 == item {
                    proof {
                        assert(consumes(item)(self.state().factories@[f as int]));
                        lemma_first_index(self.state().factories@, consumes(item), f as int);
                    }
                    return self.world.factories[f].node;
                }
                i = i + 1;
            }
            assert(!consumes(item)(self.state().factories@[f as int]));
            f = f + 1;
        }
        proof {
            lemma_first_index(self.state().factories@, consumes(item), f as int);
        }
        NodeId::Factory(0)
    }

    /// Whether factory `f` holds more of an item than `taken` has already
    /// promised from it.
    pub open spec fn has_spare(self, f: int, item: ItemId, taken: Seq<(usize, ItemId)>) -> bool {
        self.state().factories@[f].production.inventory.model().count(item) > promised(taken, f, item)
    }

    /// How far factory `f` stands from a node.
    #[verifier::opaque]
    pub open spec fn factory_distance(self, f: int, target: NodeId) -> int {
        distance_sq(self.cell(self.state().factories@[f].node), self.cell(target))
    }

    /// The nearest factory holding more of an item than `taken` has already
    /// promised from it, ties to the earlier factory.
    fn nearest_stocked_factory(&self, item: ItemId, target: NodeId, taken: &Vec<(usize, ItemId)>) -> (r: Option<usize>)
        ensures
            r is None <==> forall|g: int| 0 <= g < self.state().factories@.len() ==> !self.has_spare(g, item, taken@),
            r matches Some(f) ==> {
                &&& f < self.state().factories@.len()
                &&& self.has_spare(f as int, item, taken@)
                &&& forall|g: int| 0 <= g < self.state().factories@.len() && #[trigger] self.has_spare(g, item, taken@)
                    ==> self.factory_distance(f as int, target) <= self.factory_distance(g, target)
                &&& forall|g: int| 0 <= g < f && #[trigger] self.has_spare(g, item, taken@)
                    ==> self.factory_distance(f as int, target) < self.factory_distance(g, target)
            },
    {
        let mut best: Option<(usize, u128)> = None;
        let mut f: usize = 0;
        while f < self.world.factories.len()
            invariant
                f <= self.world.factories@.len(),
                best is None <==> forall|g: int| 0 <= g < f ==> !#[trigger] self.has_spare(g, item, taken@),
                best matches Some((b, d)) ==> {
                    &&& b < f
                    &&& self.has_spare(b as int, item, taken@)
                    &&& d == self.factory_distance(b as int, target)
                    &&& forall|g: int| 0 <= g < f && #[trigger] self.has_spare(g, item, taken@)
                        ==> self.factory_distance(b as int, target) <= self.factory_distance(g, target)
                    &&& forall|g: int| 0 <= g < b && #[trigger] self.has_spare(g, item, taken@)
                        ==> self.factory_distance(b as int, target) < self.factory_distance(g, target)
                },
            decreases self.world.factories@.len() - f,
        {
            let promised_count = promised_from(taken, f, item);
            let count = self.world.factories[f].production.inventory.count(item) as u64;
            assert(self.has_spare(f as int, item, taken@) == (count > promised_count));
            if count > promised_count {
                let (d, _) = self.dispatch_distance(self.world.factories[f].node, target);
                proof {
                    reveal(GameState::factory_distance);
                }
                let better = match best {
                    None => true,
                    Some((_, bd)) => d < bd,
                };
                if better {
                    best = Some((f, d));
                }
            }
            f = f + 1;
        }
        match best {
            Some((f, _)) => Some(f),
            None => None,
        }
    }

    /// Whether a structure stands at a build site.
    fn structure_built(&self, site: u16) -> (r: bool)
        ensures
            r == exists|k: int| 0 <= k < self.state().structures@.len()
                && (#[trigger] self.state().structures@[k]).node == NodeId::Structure(site),
    {
        let mut k: usize = 0;
        while k < self.world.structures.len()
            invariant
                k <= self.world.structures@.len(),
                forall|j: int| 0 <= j < k ==> (#[trigger] self.state().structures@[j]).node != NodeId::Structure(site),
            decreases self.world.structures@.len() - k,
        {
            if self.world.structures[k].node == NodeId::Structure(site) {
                return true;
            }
            k = k + 1;
        }
        false
    }

    /// Every object states what it asks for this tick: deposits ask for their
    /// output to be collected, factories for their missing inputs (at the
    /// priority set for them) and the collection of their output, radars
    /// claim deposits, factories holding deployment items or building items
    /// are asked to hand them to claimed deposits and open build sites, and
    /// generators ask for fuel at the priority set for them.
    fn refresh_dispatch_intents(&mut self, events: &mut Vec<String>)
        requires
            old(self).wf(),
        ensures
            final(self).wf(),
            same_objects(old(self).state(), final(self).state()),
            final(self).catalog() == old(self).catalog(),
            final(self).policy() == old(self).policy(),
            final(self).counters() == old(self).counters(),
            final(self).state().haulers == old(self).state().haulers,
            final(self).state().batteries == old(self).state().batteries,
            final(self).state().queued_mutations == old(self).state().queued_mutations,
            claims_distinct(final(self).state().radars@),
            forall|k: int| 0 <= k < final(self).state().factories@.len() ==>
                (#[trigger] final(self).state().factories@[k]).production == old(self).state().factories@[k].production,
            deliveries_prioritized(final(self).state().factories@, final(self).policy(), final(self).state().factories@.len() as int),
    {
        let mut k: usize = 0;
        while k < self.world.sources.len()
            invariant
                self.wf(),
                same_objects(old(self).state(), self.state()),
                self.catalog() == old(self).catalog(),
                self.policy() == old(self).policy(),
                self.counters() == old(self).counters(),
                self.state() == (WorldState { sources: self.state().sources, ..old(self).state() }),
                k <= self.world.sources@.len(),
            decreases self.world.sources@.len() - k,
        {
            let destination = self.source_destination(self.world.sources[k].item);
            self.world.sources[k].refresh_dispatch(destination);
            k = k + 1;
        }
        let mut k: usize = 0;
        while k < self.world.factories.len()
            invariant
                self.wf(),
                same_objects(old(self).state(), self.state()),
                self.catalog() == old(self).catalog(),
                self.policy() == old(self).policy(),
                self.counters() == old(self).counters(),
                self.state().haulers == old(self).state().haulers,
                self.state().batteries == old(self).state().batteries,
                self.state().queued_mutations == old(self).state().queued_mutations,
                self.state().radars == old(self).state().radars,
                self.state().power == old(self).state().power,
                self.state().structures == old(self).state().structures,
                k <= self.world.factories@.len(),
                forall|j: int| 0 <= j < self.world.factories@.len() ==>
                    (#[trigger] self.state().factories@[j]).production == old(self).state().factories@[j].production,
                deliveries_prioritized(self.state().factories@, self.policy(), k as int),
            decreases self.world.factories@.len() - k,
        {
            let ghost done = self.state().factories@;
            self.world.factories[k].refresh_dispatch(&self.content);
            proof {
                assert forall|j: int, i: int| 0 <= j < k && 0 <= i < self.state().factories@[j].dispatch.intents@.len()
                    && (#[trigger] self.state().factories@[j].dispatch.intents@[i]).verb == crate::dispatch::DispatchVerb::Deliver
                    implies self.state().factories@[j].dispatch.intents@[i] == prioritized(self.policy(), self.state().factories@[j].dispatch.intents@[i]) by {
                    assert(self.state().factories@[j] == done[j]);
                }
            }
            let mut i: usize = 0;
            while i < self.world.factories[k].dispatch.intents.len()
                invariant
                    self.wf(),
                    same_objects(old(self).state(), self.state()),
                    self.catalog() == old(self).catalog(),
                    self.policy() == old(self).policy(),
                    self.counters() == old(self).counters(),
                    self.state().haulers == old(self).state().haulers,
                    self.state().batteries == old(self).state().batteries,
                    self.state().queued_mutations == old(self).state().queued_mutations,
                    self.state().radars == old(self).state().radars,
                    self.state().power == old(self).state().power,
                    self.state().structures == old(self).state().structures,
                    k < self.world.factories@.len(),
                    i <= self.world.factories@[k as int].dispatch.intents@.len(),
                    forall|j: int| 0 <= j < self.world.factories@.len() ==>
                        (#[trigger] self.state().factories@[j]).production == old(self).state().factories@[j].production,
                    deliveries_prioritized(self.state().factories@, self.policy(), k as int),
                    forall|m: int| 0 <= m < i
                        && (#[trigger] self.state().factories@[k as int].dispatch.intents@[m]).verb == crate::dispatch::DispatchVerb::Deliver
                        ==> self.state().factories@[k as int].dispatch.intents@[m]
                            == prioritized(self.policy(), self.state().factories@[k as int].dispatch.intents@[m]),
                decreases self.world.factories@[k as int].dispatch.intents@.len() - i,
            {
                let ghost before_set = self.state().factories@;
                let intent = self.world.factories[k].dispatch.intents[i];
                if intent.verb == crate::dispatch::DispatchVerb::Deliver {
                    let priority = self.dispatch_policy.priority(intent.to, intent.item);
                    self.world.factories[k].dispatch.intents.set(i, intent.with_priority(priority));
                }
                proof {
                    let fs = self.state().factories@;
                    assert forall|j: int, m: int| 0 <= j < k && 0 <= m < fs[j].dispatch.intents@.len()
                        && (#[trigger] fs[j].dispatch.intents@[m]).verb == crate::dispatch::DispatchVerb::Deliver
                        implies fs[j].dispatch.intents@[m] == prioritized(self.policy(), fs[j].dispatch.intents@[m]) by {
                        assert(fs[j] == before_set[j]);
                    }
                    assert forall|m: int| 0 <= m < i + 1
                        && (#[trigger] fs[k as int].dispatch.intents@[m]).verb == crate::dispatch::DispatchVerb::Deliver
                        implies fs[k as int].dispatch.intents@[m] == prioritized(self.policy(), fs[k as int].dispatch.intents@[m]) by {
                        if m < i {
                            assert(fs[k as int].dispatch.intents@[m] == before_set[k as int].dispatch.intents@[m]);
                        }
                    }
                }
                i = i + 1;
            }
            proof {
                let fs = self.state().factories@;
                assert forall|j: int, m: int| 0 <= j < k + 1 && 0 <= m < fs[j].dispatch.intents@.len()
                    && (#[trigger] fs[j].dispatch.intents@[m]).verb == crate::dispatch::DispatchVerb::Deliver
                    implies fs[j].dispatch.intents@[m] == prioritized(self.policy(), fs[j].dispatch.intents@[m]) by {
                }
            }
            k = k + 1;
        }
        self.refresh_radar_claims(events);
        let mut taken: Vec<(usize, ItemId)> = Vec::new();
        let mut r: usize = 0;
        while r < self.world.radars.len()
            invariant
                self.wf(),
                same_objects(old(self).state(), self.state()),
                self.catalog() == old(self).catalog(),
                self.policy() == old(self).policy(),
                self.counters() == old(self).counters(),
                self.state().haulers == old(self).state().haulers,
                self.state().batteries == old(self).state().batteries,
                self.state().queued_mutations == old(self).state().queued_mutations,
                claims_distinct(self.state().radars@),
                deliveries_prioritized(self.state().factories@, self.policy(), self.state().factories@.len() as int),
                r <= self.world.radars@.len(),
                forall|j: int| 0 <= j < self.world.factories@.len() ==>
                    (#[trigger] self.state().factories@[j]).production == old(self).state().factories@[j].production,
            decreases self.world.radars@.len() - r,
        {
            match self.world.radars[r].claimed_target {
                Some(target) => {
                    let item = self.world.radars[r].deployment_item;
                    match self.nearest_stocked_factory(item, target, &taken) {
                        Some(f) => {
                            let node = self.world.factories[f].node;
                            let ghost pushed_from = self.state().factories@;
                            self.world.factories[f].dispatch.intents.push(crate::dispatch::DispatchIntent::retrieve(item, node, target));
                            proof {
                                let fs = self.state().factories@;
                                assert forall|j: int, m: int| 0 <= j < fs.len() && 0 <= m < fs[j].dispatch.intents@.len()
                                    && (#[trigger] fs[j].dispatch.intents@[m]).verb == crate::dispatch::DispatchVerb::Deliver
                                    implies fs[j].dispatch.intents@[m] == prioritized(self.policy(), fs[j].dispatch.intents@[m]) by {
                                    if j != f {
                                        assert(fs[j] == pushed_from[j]);
                                    } else if m < pushed_from[j].dispatch.intents@.len() {
                                        assert(fs[j].dispatch.intents@[m] == pushed_from[j].dispatch.intents@[m]);
                                    }
                                }
                            }
                            taken.push((f, item));
                        },
                        None => {},
                    }
                },
                None => {},
            }
            r = r + 1;
        }
        let mut site: usize = 0;
        while site < self.world.scenario.build_sites.len()
            invariant
                self.wf(),
                same_objects(old(self).state(), self.state()),
                self.catalog() == old(self).catalog(),
                self.policy() == old(self).policy(),
                self.counters() == old(self).counters(),
                self.state().haulers == old(self).state().haulers,
                self.state().batteries == old(self).state().batteries,
                self.state().queued_mutations == old(self).state().queued_mutations,
                claims_distinct(self.state().radars@),
                deliveries_prioritized(self.state().factories@, self.policy(), self.state().factories@.len() as int),
                site <= self.world.scenario.build_sites@.len(),
                forall|j: int| 0 <= j < self.world.factories@.len() ==>
                    (#[trigger] self.state().factories@[j]).production == old(self).state().factories@[j].production,
            decreases self.world.scenario.build_sites@.len() - site,
        {
            if site <= u16::MAX as usize && !self.structure_built(site as u16) {
                let item = self.world.scenario.build_sites[site].item;
                let target = NodeId::BuildSite(site as u16);
                let none: Vec<(usize, ItemId)> = Vec::new();
                match self.nearest_stocked_factory(item, target, &none) {
                    Some(f) => {
                        let node = self.world.factories[f].node;
                        let ghost pushed_from = self.state().factories@;
                        self.world.factories[f].dispatch.intents.push(crate::dispatch::DispatchIntent::retrieve(item, node, target));
                            proof {
                                let fs = self.state().factories@;
                                assert forall|j: int, m: int| 0 <= j < fs.len() && 0 <= m < fs[j].dispatch.intents@.len()
                                    && (#[trigger] fs[j].dispatch.intents@[m]).verb == crate::dispatch::DispatchVerb::Deliver
                                    implies fs[j].dispatch.intents@[m] == prioritized(self.policy(), fs[j].dispatch.intents@[m]) by {
                                    if j != f {
                                        assert(fs[j] == pushed_from[j]);
                                    } else if m < pushed_from[j].dispatch.intents@.len() {
                                        assert(fs[j].dispatch.intents@[m] == pushed_from[j].dispatch.intents@[m]);
                                    }
                                }
                            }
                    },
                    None => {},
                }
            }
            site = site + 1;
        }
        match &mut self.world.power {
            Some(power) => {
                power.refresh_dispatch();
                prioritize_fuel(power, &self.dispatch_policy);
            },
            None => {},
        }
    }
}

/// Whether every delivery the first `upto` factories ask for carries the
/// priority the policy sets for its destination and item.
pub open spec fn deliveries_prioritized(fs: Seq<FactoryNode>, policy: DispatchPolicy, upto: int) -> bool {
    forall|j: int, i: int| 0 <= j < upto && 0 <= i < fs[j].dispatch.intents@.len()
        && (#[trigger] fs[j].dispatch.intents@[i]).verb == crate::dispatch::DispatchVerb::Deliver
        ==> fs[j].dispatch.intents@[i] == prioritized(policy, fs[j].dispatch.intents@[i])
}

/// An intent with the priority a policy sets for its destination and item.
pub open spec fn prioritized(policy: DispatchPolicy, i: DispatchIntent) -> DispatchIntent {
    DispatchIntent {
        priority: match policy.get(i.to, i.item) {
            Some(p) => p,
            None => DispatchPriority(128),
        },
        ..i
    }
}

/// A generator whose fuel requests carry the priorities a policy sets.
pub open spec fn fuel_prioritized(policy: DispatchPolicy, before: crate::power::PowerGenerator, after: crate::power::PowerGenerator) -> bool {
    &&& after.node == before.node
    &&& after.spec == before.spec
    &&& after.fuel == before.fuel
    &&& after.alerts == before.alerts
    &&& after.dispatch.intents@ == before.dispatch.intents@.map_values(|i: DispatchIntent| prioritized(policy, i))
}

/// Gives each fuel request of the generators the priority set for it.
fn prioritize_fuel(power: &mut PowerGrid, policy: &DispatchPolicy)
    requires
        policy.wf(),
    ensures
        final(power).generators@.len() == old(power).generators@.len(),
        forall|k: int| 0 <= k < final(power).generators@.len() ==> {
            &&& (#[trigger] final(power).generators@[k]).node == old(power).generators@[k].node
            &&& final(power).generators@[k].spec == old(power).generators@[k].spec
        },
        forall|k: int| 0 <= k < final(power).generators@.len()
            ==> fuel_prioritized(*policy, old(power).generators@[k], #[trigger] final(power).generators@[k]),
        final(power).spec == old(power).spec,
{
    let mut g: usize = 0;
    while g < power.generators.len()
        invariant
            g <= power.generators@.len(),
            power.generators@.len() == old(power).generators@.len(),
            forall|k: int| 0 <= k < g ==> fuel_prioritized(*policy, old(power).generators@[k], #[trigger] power.generators@[k]),
            forall|k: int| g <= k < power.generators@.len() ==> #[trigger] power.generators@[k] == old(power).generators@[k],
            power.spec == old(power).spec,
        decreases power.generators@.len() - g,
    {
        let mut i: usize = 0;
        while i < power.generators[g].dispatch.intents.len()
            invariant
                g < power.generators@.len(),
                i <= power.generators@[g as int].dispatch.intents@.len(),
                power.generators@.len() == old(power).generators@.len(),
                forall|k: int| 0 <= k < g ==> fuel_prioritized(*policy, old(power).generators@[k], #[trigger] power.generators@[k]),
                forall|k: int| g < k < power.generators@.len() ==> #[trigger] power.generators@[k] == old(power).generators@[k],
                power.generators@[g as int].node == old(power).generators@[g as int].node,
                power.generators@[g as int].spec == old(power).generators@[g as int].spec,
                power.generators@[g as int].fuel == old(power).generators@[g as int].fuel,
                power.generators@[g as int].alerts == old(power).generators@[g as int].alerts,
                power.generators@[g as int].dispatch.intents@.len() == old(power).generators@[g as int].dispatch.intents@.len(),
                forall|j: int| 0 <= j < i ==> #[trigger] power.generators@[g as int].dispatch.intents@[j]
                    == prioritized(*policy, old(power).generators@[g as int].dispatch.intents@[j]),
                forall|j: int| i <= j < power.generators@[g as int].dispatch.intents@.len()
                    ==> #[trigger] power.generators@[g as int].dispatch.intents@[j] == old(power).generators@[g as int].dispatch.intents@[j],
                power.spec == old(power).spec,
            decreases power.generators@[g as int].dispatch.intents@.len() - i,
        {
            let intent = power.generators[g].dispatch.intents[i];
            let priority = policy.priority(intent.to, intent.item);
            power.generators[g].dispatch.intents.set(i, intent.with_priority(priority));
            i = i + 1;
        }
        proof {
            let a = power.generators@[g as int].dispatch.intents@;
            let b = old(power).generators@[g as int].dispatch.intents@.map_values(|x: DispatchIntent| prioritized(*policy, x));
            assert(a =~= b);
        }
        g = g + 1;
    }
}

/// A delivery demand: its priority, item, destination, the stock the
/// destination keeps, and what it holds.
pub type Demand = (DispatchPriority, ItemId, NodeId, u32, u32);

/// Whether demand `a` is served before demand `b`: higher priority first,
/// then by destination, then by item.
pub open spec fn demand_before(a: Demand, b: Demand) -> bool {
    ||| a.0.0 > b.0.0
    ||| (a.0.0 == b.0.0 && crate::node::node_less(a.2, b.2))
    ||| (a.0.0 == b.0.0 && a.2 == b.2 && crate::content::item_rank(a.1) < crate::content::item_rank(b.1))
}

fn demand_lt(a: Demand, b: Demand) -> (r: bool)
    ensures
        r == demand_before(a, b),
{
    proof {
        crate::content::lemma_item_rank_bijective(a.1);
        crate::content::lemma_item_rank_bijective(b.1);
    }
    a.0.0 > b.0.0 || (a.0.0 == b.0.0 && crate::node::node_lt(a.2, b.2))
        || (a.0.0 == b.0.0 && a.2 == b.2 && a.1.index() < b.1.index())
}

/// Orders demands, keeping the given order among equal ones: each demand is
/// placed after every demand that it is not served before.
/// No demand is served before itself or before one served before it, and
/// "not before" chains.
proof fn lemma_demand_order(a: Demand, b: Demand, c: Demand)
    ensures
        demand_before(a, b) ==> !demand_before(b, a),
        !demand_before(a, b) && !demand_before(b, c) ==> !demand_before(a, c),
{
    crate::node::lemma_node_order(a.2, b.2, c.2);
    crate::node::lemma_node_order(b.2, a.2, c.2);
    crate::node::lemma_node_order(a.2, c.2, b.2);
    crate::node::lemma_node_order(c.2, b.2, a.2);
    crate::node::lemma_node_order(b.2, c.2, a.2);
    crate::node::lemma_node_order(c.2, a.2, b.2);
}

/// Whether demands are in serving order.
pub open spec fn demands_sorted(s: Seq<Demand>) -> bool {
    forall|i: int, j: int| 0 <= i < j < s.len() ==> !demand_before(#[trigger] s[j], #[trigger] s[i])
}

/// The demands in serving order: higher priority first, then by destination,
/// then by item, equal demands in their given order.
fn sort_demands(demands: Vec<Demand>) -> (r: Vec<Demand>)
    ensures
        r@.len() == demands@.len(),
        forall|x: Demand| r@.contains(x) <==> demands@.contains(x),
        r@.to_multiset() == demands@.to_multiset(),
        demands_sorted(r@),
{
    let mut sorted: Vec<Demand> = Vec::new();
    let mut k: usize = 0;
    proof {
        broadcast use vstd::seq_lib::group_to_multiset_ensures;
        assert(demands@.take(0) =~= sorted@);
    }
    while k < demands.len()
        invariant
            k <= demands@.len(),
            sorted@.len() == k,
            forall|x: Demand| sorted@.contains(x) <==> demands@.take(k as int).contains(x),
            sorted@.to_multiset() == demands@.take(k as int).to_multiset(),
            demands_sorted(sorted@),
        decreases demands@.len() - k,
    {
        let d = demands[k];
        let mut pos: usize = sorted.len();
        while pos > 0 && demand_lt(d, sorted[pos - 1])
            invariant
                pos <= sorted@.len(),
                forall|m: int| pos <= m < sorted@.len() ==> demand_before(d, #[trigger] sorted@[m]),
            decreases pos,
        {
            pos = pos - 1;
        }
        let ghost before = sorted@;
        sorted.insert(pos, d);
        proof {
            broadcast use vstd::seq_lib::group_to_multiset_ensures;
            vstd::seq_lib::to_multiset_insert(before, pos as int, d);
            assert(demands@.take(k + 1) =~= demands@.take(k as int).push(d));
            assert(sorted@ == before.insert(pos as int, d));
            assert forall|i: int, j: int| 0 <= i < j < sorted@.len() implies !demand_before(#[trigger] sorted@[j], #[trigger] sorted@[i]) by {
                if j < pos {
                    assert(sorted@[i] == before[i] && sorted@[j] == before[j]);
                } else if j == pos {
                    // d after an earlier demand: d is not before before[pos - 1], which is not before before[i]
                    assert(sorted@[i] == before[i]);
                    assert(!demand_before(d, before[pos - 1]));
                    if i < pos - 1 {
                        assert(!demand_before(before[pos - 1], before[i]));
                        lemma_demand_order(d, before[pos - 1], before[i]);
                    }
                } else if i == pos {
                    assert(sorted@[j] == before[j - 1]);
                    assert(demand_before(d, before[j - 1]));
                    lemma_demand_order(d, before[j - 1], d);
                } else if i < pos {
                    assert(sorted@[i] == before[i] && sorted@[j] == before[j - 1]);
                } else {
                    assert(sorted@[i] == before[i - 1] && sorted@[j] == before[j - 1]);
                }
            }
        }
        proof {
            let pre = demands@.take(k as int);
            let post = demands@.take(k + 1);
            assert(post =~= pre.push(d));
            assert forall|x: Demand| sorted@.contains(x) <==> post.contains(x) by {
                if sorted@.contains(x) {
                    let j = choose|j: int| 0 <= j < sorted@.len() && sorted@[j] == x;
                    if x != d {
                        if j < pos {
                            assert(before[j] == x);
                        } else {
                            assert(before[j - 1] == x);
                        }
                        assert(before.contains(x));
                        assert(pre.contains(x));
                        let m = choose|m: int| 0 <= m < pre.len() && pre[m] == x;
                        assert(post[m] == x);
                    } else {
                        assert(post[k as int] == x);
                    }
                }
                if post.contains(x) {
                    let m = choose|m: int| 0 <= m < post.len() && post[m] == x;
                    if m == k {
                        assert(sorted@[pos as int] == x);
                    } else {
                        assert(pre[m] == x);
                        assert(before.contains(x));
                        let j = choose|j: int| 0 <= j < before.len() && before[j] == x;
                        if j < pos {
                            assert(sorted@[j] == x);
                        } else {
                            assert(sorted@[j + 1] == x);
                        }
                    }
                }
            }
        }
        k = k + 1;
    }
    assert(demands@.take(k as int) =~= demands@);
    sorted
}

impl GameState {
    /// What haulers already bring to a destination: a full load for each
    /// collection under way, and the cargo of each delivery under way.
    fn in_flight_need(&self, item: ItemId, destination: NodeId, need: u32) -> (r: u32)
        ensures
            r <= need,
            r == short_of(need as int, sum_of(self.state().haulers@, in_flight(item, destination))),
    {
        let mut need = need;
        let ghost start = need;
        let ghost f = in_flight(item, destination);
        let mut h: usize = 0;
        proof {
            assert(self.state().haulers@.take(0) =~= Seq::<Hauler>::empty());
        }
        while h < self.world.haulers.len()
            invariant
                h <= self.world.haulers@.len(),
                need <= start,
                f == in_flight(item, destination),
                need == short_of(start as int, sum_of(self.state().haulers@.take(h as int), f)),
            decreases self.world.haulers@.len() - h,
        {
            proof {
                lemma_prefix_step(self.state().haulers@, h as int, |x: Hauler| true, f);
            }
            match self.world.haulers[h].dispatch {
                DispatchReceiverState::Assigned(a) => {
                    if a.item == item && a.destination == destination {
                        let in_flight: u32 = match a.phase {
                            DispatchPhase::Collect => self.world.haulers[h].carry_limit,
                            DispatchPhase::Deliver => self.world.haulers[h].cargo.count(item),
                            _ => 0,
                        };
                        need = need.saturating_sub(in_flight);
                    }
                },
                DispatchReceiverState::Unassigned => {},
            }
            h = h + 1;
        }
        proof {
            assert(self.state().haulers@.take(h as int) =~= self.state().haulers@);
        }
        need
    }

    /// How far apart two nodes stand.
    #[verifier::opaque]
    pub open spec fn node_distance(self, a: NodeId, b: NodeId) -> int {
        distance_sq(self.cell(a), self.cell(b))
    }

    /// Whether some deposit or factory at a node asks for an item to be
    /// collected.
    pub open spec fn collects_at(self, item: ItemId, node: NodeId) -> bool {
        ||| exists|k: int| 0 <= k < self.state().sources@.len() && (#[trigger] self.state().sources@[k]).node == node
                && asks_for(self.state().sources@[k].dispatch, item)
        ||| exists|k: int| 0 <= k < self.state().factories@.len() && (#[trigger] self.state().factories@[k]).node == node
                && asks_for(self.state().factories@[k].dispatch, item)
    }

    /// The deposit or factory nearest to a destination that asks for an item
    /// to be collected, ties to the first.
    fn nearest_collection(&self, item: ItemId, destination: NodeId) -> (r: Option<NodeId>)
        ensures
            r is None <==> (forall|k: int| 0 <= k < self.state().sources@.len()
                ==> !asks_for((#[trigger] self.state().sources@[k]).dispatch, item))
                && (forall|k: int| 0 <= k < self.state().factories@.len()
                ==> !asks_for((#[trigger] self.state().factories@[k]).dispatch, item)),
            r matches Some(n) ==> {
                &&& self.collects_at(item, n)
                &&& forall|k: int| 0 <= k < self.state().sources@.len() && asks_for((#[trigger] self.state().sources@[k]).dispatch, item)
                    ==> self.node_distance(n, destination) <= self.node_distance(self.state().sources@[k].node, destination)
                &&& forall|k: int| 0 <= k < self.state().factories@.len() && asks_for((#[trigger] self.state().factories@[k]).dispatch, item)
                    ==> self.node_distance(n, destination) <= self.node_distance(self.state().factories@[k].node, destination)
            },
    {
        let mut best: Option<(NodeId, u128)> = None;
        let mut k: usize = 0;
        while k < self.world.sources.len()
            invariant
                k <= self.world.sources@.len(),
                best is None <==> forall|j: int| 0 <= j < k ==> !asks_for((#[trigger] self.state().sources@[j]).dispatch, item),
                best matches Some((n, d)) ==> {
                    &&& self.collects_at(item, n)
                    &&& d == self.node_distance(n, destination)
                    &&& forall|j: int| 0 <= j < k && asks_for((#[trigger] self.state().sources@[j]).dispatch, item)
                        ==> d <= self.node_distance(self.state().sources@[j].node, destination)
                },
            decreases self.world.sources@.len() - k,
        {
            if asks_collection(&self.world.sources[k].dispatch, item) {
                let node = self.world.sources[k].node;
                let (d, _) = self.dispatch_distance(node, destination);
                proof {
                    reveal(GameState::node_distance);
                    assert(self.state().sources@[k as int].node == node);
                }
                let better = match best {
                    None => true,
                    Some((_, bd)) => d < bd,
                };
                if better {
                    best = Some((node, d));
                }
            }
            k = k + 1;
        }
        let ghost none_from_sources = best is None;
        let mut k: usize = 0;
        while k < self.world.factories.len()
            invariant
                k <= self.world.factories@.len(),
                none_from_sources <==> forall|j: int| 0 <= j < self.state().sources@.len()
                    ==> !asks_for((#[trigger] self.state().sources@[j]).dispatch, item),
                best is None <==> none_from_sources && forall|j: int| 0 <= j < k
                    ==> !asks_for((#[trigger] self.state().factories@[j]).dispatch, item),
                best matches Some((n, d)) ==> {
                    &&& self.collects_at(item, n)
                    &&& d == self.node_distance(n, destination)
                    &&& forall|j: int| 0 <= j < self.state().sources@.len() && asks_for((#[trigger] self.state().sources@[j]).dispatch, item)
                        ==> d <= self.node_distance(self.state().sources@[j].node, destination)
                    &&& forall|j: int| 0 <= j < k && asks_for((#[trigger] self.state().factories@[j]).dispatch, item)
                        ==> d <= self.node_distance(self.state().factories@[j].node, destination)
                },
            decreases self.world.factories@.len() - k,
        {
            if asks_collection(&self.world.factories[k].dispatch, item) {
                let node = self.world.factories[k].node;
                let (d, _) = self.dispatch_distance(node, destination);
                proof {
                    reveal(GameState::node_distance);
                    assert(self.state().factories@[k as int].node == node);
                }
                let better = match best {
                    None => true,
                    Some((_, bd)) => d < bd,
                };
                if better {
                    best = Some((node, d));
                }
            }
            k = k + 1;
        }
        match best {
            Some((node, _)) => Some(node),
            None => None,
        }
    }

    /// Assigns idle, empty haulers to collect for a demand until what is
    /// under way covers the missing stock: each from the nearest object that
    /// asks for the item's collection, after the destination draws the
    /// dispatch power.
    fn assign_dispatch_for_demand(&mut self, demand: Demand, events: &mut Vec<String>)
        requires
            old(self).wf(),
        ensures
            final(self).wf(),
            same_objects(old(self).state(), final(self).state()),
            final(self).catalog() == old(self).catalog(),
            final(self).policy() == old(self).policy(),
            final(self).state().queued_mutations == old(self).state().queued_mutations,
            forall|k: int| 0 <= k < final(self).state().haulers@.len() ==> {
                let before = old(self).state().haulers@[k];
                let after = #[trigger] final(self).state().haulers@[k];
                &&& after.cargo == before.cargo
                &&& after.position == before.position
                &&& (after.dispatch != before.dispatch ==> before.dispatch is Unassigned && before.cargo.model().is_empty())
            },
    {
        let (priority, item, destination, buffer, stocked) = demand;
        let missing: u32 = buffer.saturating_sub(stocked);
        let mut need = self.in_flight_need(item, destination, missing);
        let dispatch_cost: u32 = match &self.world.power {
            Some(power) => power.spec.dispatch_cost,
            None => 0,
        };
        let mut h: usize = 0;
        while h < self.world.haulers.len() && need > 0
            invariant
                self.wf(),
                same_objects(old(self).state(), self.state()),
                self.catalog() == old(self).catalog(),
                self.policy() == old(self).policy(),
                self.state().queued_mutations == old(self).state().queued_mutations,
                h <= self.world.haulers@.len(),
                forall|k: int| 0 <= k < self.state().haulers@.len() ==> {
                    let before = old(self).state().haulers@[k];
                    let after = #[trigger] self.state().haulers@[k];
                    &&& after.cargo == before.cargo
                    &&& after.position == before.position
                    &&& (after.dispatch != before.dispatch ==> before.dispatch is Unassigned && before.cargo.model().is_empty())
                },
                forall|k: int| h <= k < self.state().haulers@.len() ==> #[trigger] self.state().haulers@[k] == old(self).state().haulers@[k],
            decreases self.world.haulers@.len() - h,
        {
            let idle = match self.world.haulers[h].dispatch {
                DispatchReceiverState::Unassigned => self.world.haulers[h].cargo.is_empty(),
                DispatchReceiverState::Assigned(_) => false,
            };
            if idle {
                let source = match self.nearest_collection(item, destination) {
                    Some(node) => node,
                    None => break,
                };
                if !self.consume_power(destination, dispatch_cost, "dispatch", events) {
                    break;
                }
                let hauler = &mut self.world.haulers[h];
                hauler.assign(DispatchAssignment::collect_with_priority(item, source, destination, priority));
                self.metrics.dispatches_assigned = self.metrics.dispatches_assigned.saturating_add(1);
                need = need.saturating_sub(hauler.carry_limit);
                let mut line = crate::text::text("dispatch assigned collect ");
                crate::text::push_str(&mut line, item.as_str());
                crate::text::push_str(&mut line, " ");
                crate::node::push_node(&mut line, source);
                crate::text::push_str(&mut line, " -> ");
                crate::node::push_node(&mut line, destination);
                crate::text::push_str(&mut line, " to ");
                push_hauler(&mut line, hauler.id);
                events.push(line);
            }
            h = h + 1;
        }
    }

    /// Assigns idle, empty haulers to retrieve what factories are asked to
    /// hand to deployments, one hauler per item and target, after the
    /// factory draws the dispatch power.
    fn assign_deployments(&mut self, events: &mut Vec<String>)
        requires
            old(self).wf(),
        ensures
            final(self).wf(),
            same_objects(old(self).state(), final(self).state()),
            final(self).catalog() == old(self).catalog(),
            final(self).policy() == old(self).policy(),
            final(self).state().queued_mutations == old(self).state().queued_mutations,
            forall|k: int| 0 <= k < final(self).state().haulers@.len() ==> {
                let before = old(self).state().haulers@[k];
                let after = #[trigger] final(self).state().haulers@[k];
                &&& after.cargo == before.cargo
                &&& after.position == before.position
                &&& (after.dispatch != before.dispatch ==> before.dispatch is Unassigned && before.cargo.model().is_empty())
            },
    {
        let mut intents: Vec<crate::dispatch::DispatchIntent> = Vec::new();
        let mut f: usize = 0;
        while f < self.world.factories.len()
            invariant
                f <= self.world.factories@.len(),
            decreases self.world.factories@.len() - f,
        {
            let board = &self.world.factories[f].dispatch.intents;
            let mut i: usize = 0;
            while i < board.len()
                invariant
                    i <= board@.len(),
                decreases board@.len() - i,
            {
                if board[i].verb == crate::dispatch::DispatchVerb::Retrieve {
                    intents.push(board[i]);
                }
                i = i + 1;
            }
            f = f + 1;
        }
        let dispatch_cost: u32 = match &self.world.power {
            Some(power) => power.spec.dispatch_cost,
            None => 0,
        };
        let mut k: usize = 0;
        while k < intents.len()
            invariant
                self.wf(),
                same_objects(old(self).state(), self.state()),
                self.catalog() == old(self).catalog(),
                self.policy() == old(self).policy(),
                self.state().queued_mutations == old(self).state().queued_mutations,
                k <= intents@.len(),
                forall|j: int| 0 <= j < self.state().haulers@.len() ==> {
                    let before = old(self).state().haulers@[j];
                    let after = #[trigger] self.state().haulers@[j];
                    &&& after.cargo == before.cargo
                    &&& after.position == before.position
                    &&& (after.dispatch != before.dispatch ==> before.dispatch is Unassigned && before.cargo.model().is_empty())
                },
            decreases intents@.len() - k,
        {
            let intent = intents[k];
            let mut served = false;
            let mut h: usize = 0;
            while h < self.world.haulers.len()
                invariant
                    h <= self.world.haulers@.len(),
                decreases self.world.haulers@.len() - h,
            {
                match self.world.haulers[h].dispatch {
                    DispatchReceiverState::Assigned(a) => {
                        if a.item == intent.item && a.destination == intent.to {
                            served = true;
                        }
                    },
                    DispatchReceiverState::Unassigned => {},
                }
                h = h + 1;
            }
            if !served {
                let mut idle: usize = self.world.haulers.len();
                let mut h: usize = 0;
                while h < self.world.haulers.len()
                    invariant
                        h <= self.world.haulers@.len(),
                        idle == self.world.haulers@.len() || (idle < self.world.haulers@.len()
                            && self.state().haulers@[idle as int].dispatch is Unassigned
                            && self.state().haulers@[idle as int].cargo.model().is_empty()),
                    decreases self.world.haulers@.len() - h,
                {
                    if idle == self.world.haulers.len() {
                        let free = match self.world.haulers[h].dispatch {
                            DispatchReceiverState::Unassigned => self.world.haulers[h].cargo.is_empty(),
                            DispatchReceiverState::Assigned(_) => false,
                        };
                        if free {
                            idle = h;
                        }
                    }
                    h = h + 1;
                }
                if idle == self.world.haulers.len() {
                    break;
                }
                if !self.consume_power(intent.from, dispatch_cost, "dispatch-deploy", events) {
                    break;
                }
                let ghost before = self.state().haulers@;
                let hauler = &mut self.world.haulers[idle];
                hauler.assign(DispatchAssignment::retrieve(intent.item, intent.from, intent.to));
                self.metrics.dispatches_assigned = self.metrics.dispatches_assigned.saturating_add(1);
                let mut line = crate::text::text("dispatch assigned retrieve ");
                crate::text::push_str(&mut line, intent.item.as_str());
                crate::text::push_str(&mut line, " ");
                crate::node::push_node(&mut line, intent.from);
                crate::text::push_str(&mut line, " -> ");
                crate::node::push_node(&mut line, intent.to);
                crate::text::push_str(&mut line, " to ");
                push_hauler(&mut line, hauler.id);
                events.push(line);
                proof {
                    assert(before[idle as int].dispatch is Unassigned);
                }
            }
            k = k + 1;
        }
    }

    /// Serves the delivery demands of factories and generators in demand
    /// order, and then the deployments.
    fn assign_dispatch(&mut self, events: &mut Vec<String>)
        requires
            old(self).wf(),
        ensures
            final(self).wf(),
            same_objects(old(self).state(), final(self).state()),
            final(self).catalog() == old(self).catalog(),
            final(self).policy() == old(self).policy(),
            final(self).state().queued_mutations == old(self).state().queued_mutations,
    {
        let mut demands: Vec<Demand> = Vec::new();
        let mut f: usize = 0;
        while f < self.world.factories.len()
            invariant
                f <= self.world.factories@.len(),
            decreases self.world.factories@.len() - f,
        {
            let factory = &self.world.factories[f];
            let mut i: usize = 0;
            while i < factory.dispatch.intents.len()
                invariant
                    i <= factory.dispatch.intents@.len(),
                decreases factory.dispatch.intents@.len() - i,
            {
                let intent = factory.dispatch.intents[i];
                if intent.verb == crate::dispatch::DispatchVerb::Deliver {
                    demands.push((intent.priority, intent.item, factory.node, factory.input_buffer, factory.production.inventory.count(intent.item)));
                }
                i = i + 1;
            }
            f = f + 1;
        }
        match &self.world.power {
            Some(power) => {
                let mut g: usize = 0;
                while g < power.generators.len()
                    invariant
                        g <= power.generators@.len(),
                    decreases power.generators@.len() - g,
                {
                    let generator = &power.generators[g];
                    let mut i: usize = 0;
                    while i < generator.dispatch.intents.len()
                        invariant
                            i <= generator.dispatch.intents@.len(),
                        decreases generator.dispatch.intents@.len() - i,
                    {
                        let intent = generator.dispatch.intents[i];
                        demands.push((intent.priority, intent.item, generator.node, generator.spec.fuel_buffer, generator.fuel.count(intent.item)));
                        i = i + 1;
                    }
                    g = g + 1;
                }
            },
            None => {},
        }
        let demands = sort_demands(demands);
        let mut k: usize = 0;
        while k < demands.len()
            invariant
                self.wf(),
                same_objects(old(self).state(), self.state()),
                self.catalog() == old(self).catalog(),
                self.policy() == old(self).policy(),
                self.state().queued_mutations == old(self).state().queued_mutations,
                k <= demands@.len(),
            decreases demands@.len() - k,
        {
            self.assign_dispatch_for_demand(demands[k], events);
            k = k + 1;
        }
        self.assign_deployments(events);
    }
}

/// Whether a board asks for an item to be collected.
pub open spec fn asks_for(board: crate::dispatch::DispatchBoard, item: ItemId) -> bool {
    exists|i: int| 0 <= i < board.intents@.len() && (#[trigger] board.intents@[i]).verb == crate::dispatch::DispatchVerb::Collect
        && board.intents@[i].item == item
}

/// Whether a board asks for an item to be collected.
fn asks_collection(board: &crate::dispatch::DispatchBoard, item: ItemId) -> (r: bool)
    ensures
        r == asks_for(*board, item),
{
    let mut i: usize = 0;
    while i < board.intents.len()
        invariant
            i <= board.intents@.len(),
            forall|j: int| 0 <= j < i ==> !((#[trigger] board.intents@[j]).verb == crate::dispatch::DispatchVerb::Collect
                && board.intents@[j].item == item),
        decreases board.intents@.len() - i,
    {
        if board.intents[i].verb == crate::dispatch::DispatchVerb::Collect && board.intents[i].item == item {
            return true;
        }
        i = i + 1;
    }
    false
}

/// Where a hauler heads: the source while collecting or retrieving, the
/// destination while delivering or deploying, and otherwise where it is, or
/// the first factory while it still carries cargo.
pub open spec fn hauler_target(h: Hauler) -> NodeId {
    match h.dispatch {
        DispatchReceiverState::Assigned(a) => match a.phase {
            DispatchPhase::Collect | DispatchPhase::Retrieve => a.source,
            DispatchPhase::Deliver | DispatchPhase::Deploy => a.destination,
        },
        DispatchReceiverState::Unassigned => if h.cargo.model().is_empty() { h.position } else { NodeId::Factory(0) },
    }
}

/// Whether a queued change moves a hauler from where it stands to another
/// node, toward its target, and to the head of the route it keeps for that
/// target.
pub open spec fn hauler_move(m: WorldMutation, h: Hauler) -> bool {
    match m {
        WorldMutation::MoveHauler { hauler_id, from, to, target } => {
            &&& hauler_id == h.id
            &&& from == h.position
            &&& to != h.position
            &&& target == hauler_target(h)
            &&& (h.target == hauler_target(h) && h.route@.len() > 0 ==> to == h.route@[0])
        },
        _ => false,
    }
}

/// Whether the changes queued from `start` on are, in order, one move each
/// of distinct haulers taken in hauler order; `owner` names each move's
/// hauler.
pub open spec fn queued_moves_of(q: Seq<WorldMutation>, start: int, before: Seq<Hauler>, owner: Seq<int>) -> bool {
    &&& owner.len() == q.len() - start
    &&& forall|i: int, j: int| 0 <= i < j < owner.len() ==> owner[i] < owner[j]
    &&& forall|i: int| 0 <= i < owner.len() ==> #[trigger] move_of_owner(q, start, before, owner, i)
}

/// Whether the `i`th queued move belongs to the hauler `owner` names.
pub open spec fn move_of_owner(q: Seq<WorldMutation>, start: int, before: Seq<Hauler>, owner: Seq<int>, i: int) -> bool {
    0 <= owner[i] < before.len() && hauler_move(q[start + i], before[owner[i]])
}

proof fn lemma_queue_move(before: Seq<WorldMutation>, q: Seq<WorldMutation>, start: int, haulers: Seq<Hauler>, owner: Seq<int>, h: int)
    requires
        0 <= start,
        queued_moves_of(before, start, haulers, owner),
        forall|i: int| 0 <= i < owner.len() ==> owner[i] < h,
        0 <= h < haulers.len(),
        q.len() == before.len() + 1,
        forall|i: int| 0 <= i < before.len() ==> q[i] == before[i],
        hauler_move(q[q.len() - 1], haulers[h]),
    ensures
        queued_moves_of(q, start, haulers, owner.push(h)),
        forall|i: int| 0 <= i < owner.push(h).len() ==> owner.push(h)[i] < h + 1,
{
    let o = owner.push(h);
    assert forall|i: int| 0 <= i < o.len() implies #[trigger] move_of_owner(q, start, haulers, o, i) by {
        if i < owner.len() {
            assert(q[start + i] == before[start + i]);
            assert(move_of_owner(before, start, haulers, owner, i));
        } else {
            assert(start + i == q.len() - 1);
        }
    }
    assert(o.len() == q.len() - start);
    assert forall|i: int, j: int| 0 <= i < j < o.len() implies o[i] < o[j] by {
        if j < owner.len() {
            assert(o[i] == owner[i] && o[j] == owner[j]);
        } else {
            assert(o[i] == owner[i]);
        }
    }
}

/// The transit cell a queued change moves a hauler onto, if any.
pub open spec fn transit_move(m: WorldMutation) -> Option<NodeId> {
    match m {
        WorldMutation::MoveHauler { to, .. } => if to is Transit { Some(to) } else { None },
        _ => None,
    }
}

/// No two of the queued moves after `start` enter the same transit cell.
pub open spec fn transit_moves_distinct(q: Seq<WorldMutation>, start: int) -> bool {
    forall|i: int, j: int| start <= i < j < q.len() && transit_move(q[i]) is Some ==> transit_move(q[i]) != transit_move(q[j])
}

impl GameState {
    /// Each hauler heads for its target and, unless it is already in range,
    /// queues a move to the next node of its route, computing the route when
    /// it has none. A transit cell is entered by one hauler per tick: later
    /// haulers wait.
    pub fn queue_hauler_movements(&mut self, events: &mut Vec<String>)
        requires
            old(self).wf(),
        ensures
            final(self).wf(),
            same_objects(old(self).state(), final(self).state()),
            final(self).catalog() == old(self).catalog(),
            final(self).policy() == old(self).policy(),
            final(self).counters() == old(self).counters(),
            final(self).state().queued_mutations@.len() >= old(self).state().queued_mutations@.len(),
            forall|k: int| 0 <= k < old(self).state().queued_mutations@.len() ==>
                #[trigger] final(self).state().queued_mutations@[k] == old(self).state().queued_mutations@[k],
            transit_moves_distinct(final(self).state().queued_mutations@, old(self).state().queued_mutations@.len() as int),
            exists|owner: Seq<int>| queued_moves_of(final(self).state().queued_mutations@,
                old(self).state().queued_mutations@.len() as int, old(self).state().haulers@, owner),
            forall|k: int| 0 <= k < final(self).state().haulers@.len() ==> {
                let before = old(self).state().haulers@[k];
                let after = #[trigger] final(self).state().haulers@[k];
                &&& after.target == hauler_target(before)
                &&& after.position == before.position
                &&& after.dispatch == before.dispatch
                &&& after.cargo == before.cargo
            },
    {
        let start = self.world.queued_mutations.len();
        let mut reserved: Vec<NodeId> = Vec::new();
        let ghost mut owner: Seq<int> = Seq::empty();
        let mut h: usize = 0;
        while h < self.world.haulers.len()
            invariant
                queued_moves_of(self.state().queued_mutations@, start as int, old(self).state().haulers@, owner),
                forall|i: int| 0 <= i < owner.len() ==> owner[i] < h,
                self.state().haulers@.len() == old(self).state().haulers@.len(),
                self.wf(),
                same_objects(old(self).state(), self.state()),
                self.catalog() == old(self).catalog(),
                self.policy() == old(self).policy(),
                self.counters() == old(self).counters(),
                start == old(self).state().queued_mutations@.len(),
                self.state().queued_mutations@.len() >= start,
                forall|k: int| 0 <= k < start ==> #[trigger] self.state().queued_mutations@[k] == old(self).state().queued_mutations@[k],
                transit_moves_distinct(self.state().queued_mutations@, start as int),
                forall|k: int| start <= k < self.state().queued_mutations@.len() && transit_move(self.state().queued_mutations@[k]) is Some
                    ==> reserved@.contains(transit_move(self.state().queued_mutations@[k])->0),
                h <= self.world.haulers@.len(),
                forall|k: int| 0 <= k < self.state().haulers@.len() ==> {
                    let before = old(self).state().haulers@[k];
                    let after = #[trigger] self.state().haulers@[k];
                    &&& (k < h ==> after.target == hauler_target(before))
                    &&& (k >= h ==> after == before)
                    &&& after.position == before.position
                    &&& after.dispatch == before.dispatch
                    &&& after.cargo == before.cargo
                },
            decreases self.world.haulers@.len() - h,
        {
            let target = match self.world.haulers[h].dispatch {
                DispatchReceiverState::Assigned(a) => match a.phase {
                    DispatchPhase::Collect | DispatchPhase::Retrieve => a.source,
                    DispatchPhase::Deliver | DispatchPhase::Deploy => a.destination,
                },
                DispatchReceiverState::Unassigned => {
                    if self.world.haulers[h].cargo.is_empty() { self.world.haulers[h].position } else { NodeId::Factory(0) }
                },
            };
            let ghost hb = old(self).state().haulers@[h as int];
            self.world.haulers[h].set_target(target);
            let id = self.world.haulers[h].id;
            let current = self.world.haulers[h].position;
            let current_cell = self.world.topology.position_or_origin(current);
            let target_cell = self.world.topology.position_or_origin(target);
            if current_cell == target_cell || crate::topology::adjacent(current_cell, target_cell) {
                self.world.haulers[h].route = Vec::new();
            } else {
                let mut routed = true;
                if self.world.haulers[h].route.len() == 0 {
                    match self.world.topology.path(current, target) {
                        Some(path) => {
                            let mut rest: Vec<NodeId> = Vec::new();
                            let mut k: usize = 1;
                            while k < path.len()
                                invariant
                                    1 <= k,
                                decreases path@.len() - k,
                            {
                                rest.push(path[k]);
                                k = k + 1;
                            }
                            self.world.haulers[h].route = rest;
                        },
                        None => {
                            let mut line = crate::text::text("move ");
                            push_hauler(&mut line, id);
                            crate::text::push_str(&mut line, " no available path ");
                            crate::node::push_node(&mut line, current);
                            crate::text::push_str(&mut line, " -> ");
                            crate::node::push_node(&mut line, target);
                            events.push(line);
                            routed = false;
                        },
                    }
                }
                if routed && self.world.haulers[h].route.len() > 0 {
                    let next = self.world.haulers[h].route[0];
                    if next == current {
                        self.world.haulers[h].route.remove(0);
                    } else {
                        let taken = match next {
                            NodeId::Transit(_) => contains_node(&reserved, next),
                            _ => false,
                        };
                        if taken {
                            let mut line = crate::text::text("move ");
                            push_hauler(&mut line, id);
                            crate::text::push_str(&mut line, " blocked by queued transit occupancy at ");
                            crate::node::push_node(&mut line, next);
                            events.push(line);
                        } else {
                            let ghost old_reserved = reserved@;
                            match next {
                                NodeId::Transit(_) => reserved.push(next),
                                _ => {},
                            }
                            self.world.haulers[h].route.remove(0);
                            let ghost before = self.state().queued_mutations@;
                            self.world.queued_mutations.push(WorldMutation::MoveHauler { hauler_id: id, from: current, to: next, target });
                            proof {
                                let q = self.state().queued_mutations@;
                                assert(hauler_move(q[q.len() - 1], hb));
                                lemma_queue_move(before, q, start as int, old(self).state().haulers@, owner, h as int);
                                owner = owner.push(h as int);
                                assert forall|i: int, j: int| start <= i < j < q.len() && transit_move(q[i]) is Some
                                    implies transit_move(q[i]) != transit_move(q[j]) by {
                                    if j == q.len() - 1 {
                                        assert(q[i] == before[i]);
                                        if transit_move(q[j]) is Some {
                                            assert(old_reserved.contains(transit_move(before[i])->0));
                                        }
                                    } else {
                                        assert(q[i] == before[i] && q[j] == before[j]);
                                    }
                                }
                                assert forall|k: int| start <= k < q.len() && transit_move(q[k]) is Some
                                    implies reserved@.contains(transit_move(q[k])->0) by {
                                    if k < q.len() - 1 {
                                        assert(q[k] == before[k]);
                                        assert(old_reserved.contains(transit_move(before[k])->0));
                                        let c = choose|c: int| 0 <= c < old_reserved.len() && old_reserved[c] == transit_move(before[k])->0;
                                        assert(reserved@[c] == transit_move(q[k])->0);
                                    } else {
                                        assert(reserved@[reserved@.len() - 1] == next);
                                    }
                                }
                            }
                        }
                    }
                }
            }
            h = h + 1;
        }
    }
}

impl GameState {
    /// The index of the first hauler with an id.
    fn hauler_index(&self, id: u16) -> (r: Option<usize>)
        ensures
            r is None <==> first_index(self.state().haulers@, hauler_with(id)) is None,
            r matches Some(k) ==> first_index(self.state().haulers@, hauler_with(id)) == Some(k as int),
            r matches Some(k) ==> k < self.state().haulers@.len() && self.state().haulers@[k as int].id == id,
    {
        let mut k: usize = 0;
        while k < self.world.haulers.len()
            invariant
                k <= self.world.haulers@.len(),
                forall|j: int| 0 <= j < k ==> !hauler_with(id)(#[trigger] self.state().haulers@[j]),
            decreases self.world.haulers@.len() - k,
        {
            if self.world.haulers[k].id == id {
                proof {
                    assert(hauler_with(id)(self.state().haulers@[k as int]));
                    lemma_first_index(self.state().haulers@, hauler_with(id), k as int);
                }
                return Some(k);
            }
            k = k + 1;
        }
        proof {
            lemma_first_index(self.state().haulers@, hauler_with(id), k as int);
        }
        None
    }

    /// Places a coal plant as a generator on a coal deposit: the deposit's
    /// battery gives way to the generator's, the deposit is occupied, and the
    /// hauler that brought it is released toward it.
    #[verifier::spinoff_prover]
    #[verifier::rlimit(30)]
    fn spawn_generator(&mut self, source_index: u16, item: ItemId, hauler_id: u16, events: &mut Vec<String>)
        requires
            old(self).wf(),
        ensures
            final(self).state().structures == old(self).state().structures,
            forall|k: int| 0 <= k < old(self).state().sources@.len() ==> {
                &&& (#[trigger] final(self).state().sources@[k]).deployed == old(self).state().sources@[k].deployed
                &&& final(self).state().sources@[k].exhausted == old(self).state().sources@[k].exhausted
            },
            forall|h: int| 0 <= h < old(self).state().haulers@.len() ==> (#[trigger] final(self).state().haulers@[h]).position == old(self).state().haulers@[h].position,
            forall|h: int| 0 <= h < old(self).state().haulers@.len() ==> (#[trigger] final(self).state().haulers@[h]).id == old(self).state().haulers@[h].id,
            forall|k: int| 0 <= k < old(self).state().sources@.len() ==> (#[trigger] final(self).state().sources@[k]).node == old(self).state().sources@[k].node,
            final(self).wf(),
            final(self).catalog() == old(self).catalog(),
            final(self).policy() == old(self).policy(),
            final(self).state().tick == old(self).state().tick,
            final(self).state().sources@.len() == old(self).state().sources@.len(),
            final(self).state().factories@.len() == old(self).state().factories@.len(),
            final(self).state().haulers@.len() == old(self).state().haulers@.len(),
            final(self).state().queued_mutations == old(self).state().queued_mutations,
            !coal_plant_fits(old(self).state(), source_index, item) ==> final(self).state().sources == old(self).state().sources
                && final(self).state().haulers == old(self).state().haulers
                && final(self).state().power == old(self).state().power,
            coal_plant_fits(old(self).state(), source_index, item) ==> {
                let s = first_source(old(self).state().sources@, NodeId::Source(source_index))->0;
                let p = old(self).state().power->0;
                let q = final(self).state().power->0;
                let generator = NodeId::Generator(p.generators@.len() as u16);
                &&& final(self).state().sources@[s].occupied_by == Some(generator)
                &&& final(self).state().power is Some
                &&& q.generators@.len() == p.generators@.len() + 1
                &&& q.generators@.last().node == generator
                &&& q.generators@.last().spec.item == Some(COAL_PLANT)
                &&& q.generators@.last().spec.fuel_item == Some(COAL)
                &&& q.generators@.last().spec.initial_fuel == 0
                &&& final(self).state().batteries.has(BatteryOwner::Node(generator))
                &&& forall|h: int| 0 <= h < old(self).state().haulers@.len() ==> (#[trigger] final(self).state().haulers@[h])
                    == (if first_index(old(self).state().haulers@, hauler_with(hauler_id)) == Some(h) {
                        Hauler { target: generator, dispatch: DispatchReceiverState::Unassigned, ..old(self).state().haulers@[h] }
                    } else {
                        old(self).state().haulers@[h]
                    })
            },
    {
        let source_node = NodeId::Source(source_index);
        let s = match self.source_index(source_node) {
            Some(s) => s,
            None => return,
        };
        let source = &self.world.sources[s];
        if item != COAL_PLANT || source.item != COAL || source.deployed || source.occupied_by.is_some()
            || source.exhausted || source.mining.is_depleted() {
            return;
        }
        let position = self.world.topology.position_or_origin(source_node);
        let spec = GeneratorSpec::coal_plant(0);
        let capacity = spec.grid_capacity;
        let generator = match &mut self.world.power {
            Some(power) => {
                if power.generators.len() >= u16::MAX as usize {
                    return;
                }
                proof {
                    let fresh = InventoryModel::empty(64, 64);
                    assert(fresh.with_reservation(COAL, 4_000).max_insertable(self.content, COAL, 0) == 0);
                }
                power.deploy_generator(&self.content, spec)
            },
            None => return,
        };
        let ghost nodes = self.world.topology.nodes@;
        proof {
            assert(!(exists|k: int| 0 <= k < nodes.len() && nodes[k].id == generator)) by {
                if exists|k: int| 0 <= k < nodes.len() && nodes[k].id == generator {
                    let k = choose|k: int| 0 <= k < nodes.len() && nodes[k].id == generator;
                    assert(nodes[k].id is Generator);
                }
            }
        }
        let inserted = self.world.topology.insert_node(generator, position);
        proof {
            let n = self.world.topology.nodes@;
            assert forall|k: int| 0 <= k < n.len() && (#[trigger] n[k]).id is Generator
                implies (n[k].id->Generator_0) < generator_count(self.world) by {
                if k < nodes.len() {
                    assert(n[k] == nodes[k]);
                }
            }
        }
        self.world.batteries.remove(&BatteryOwner::Node(source_node));
        let owner = BatteryOwner::Node(generator);
        self.world.batteries.insert(Battery::new(owner, 0, capacity));
        self.world.sources[s].occupied_by = Some(generator);
        let ghost haulers_before = self.state().haulers@;
        match self.hauler_index(hauler_id) {
            Some(h) => {
                self.world.haulers[h].target = generator;
                self.world.haulers[h].clear_assignment();
                proof {
                    let hh = self.state().haulers@[h as int];
                    assert(hh == Hauler { target: generator, dispatch: DispatchReceiverState::Unassigned, ..haulers_before[h as int] });
                    assert forall|j: int| 0 <= j < haulers_before.len() implies (#[trigger] self.state().haulers@[j])
                        == (if first_index(haulers_before, hauler_with(hauler_id)) == Some(j) {
                            Hauler { target: generator, dispatch: DispatchReceiverState::Unassigned, ..haulers_before[j] }
                        } else {
                            haulers_before[j]
                        }) by {
                        if j != h {
                            assert(self.state().haulers@[j] == haulers_before[j]);
                        }
                    }
                }
            },
            None => {},
        }
        self.metrics.deployments = self.metrics.deployments.saturating_add(1);
        self.metrics.generators_deployed = self.metrics.generators_deployed.saturating_add(1);
        let mut line = crate::text::text("world deploy ");
        crate::text::push_str(&mut line, item.as_str());
        crate::text::push_str(&mut line, " as ");
        crate::node::push_node(&mut line, generator);
        crate::text::push_str(&mut line, " at ");
        crate::node::push_node(&mut line, source_node);
        events.push(line);
    }

    /// Turns a build site into a structure of an item: its cell becomes
    /// blocked and the hauler that brought the item is released toward it.
    #[verifier::spinoff_prover]
    #[verifier::rlimit(30)]
    fn spawn_structure(&mut self, site_index: u16, item: ItemId, hauler_id: u16, events: &mut Vec<String>)
        requires
            old(self).wf(),
        ensures
            final(self).state().structures@.len() <= old(self).state().structures@.len() + 1,
            forall|k: int| 0 <= k < old(self).state().structures@.len() ==> #[trigger] final(self).state().structures@[k] == old(self).state().structures@[k],
            final(self).state().structures@.len() >= old(self).state().structures@.len(),
            forall|k: int| 0 <= k < old(self).state().sources@.len() ==> {
                &&& (#[trigger] final(self).state().sources@[k]).deployed == old(self).state().sources@[k].deployed
                &&& final(self).state().sources@[k].exhausted == old(self).state().sources@[k].exhausted
            },
            forall|h: int| 0 <= h < old(self).state().haulers@.len() ==> (#[trigger] final(self).state().haulers@[h]).position == old(self).state().haulers@[h].position,
            forall|h: int| 0 <= h < old(self).state().haulers@.len() ==> (#[trigger] final(self).state().haulers@[h]).id == old(self).state().haulers@[h].id,
            forall|k: int| 0 <= k < old(self).state().sources@.len() ==> (#[trigger] final(self).state().sources@[k]).node == old(self).state().sources@[k].node,
            final(self).wf(),
            final(self).catalog() == old(self).catalog(),
            final(self).policy() == old(self).policy(),
            final(self).state().tick == old(self).state().tick,
            final(self).state().sources@.len() == old(self).state().sources@.len(),
            final(self).state().factories@.len() == old(self).state().factories@.len(),
            final(self).state().haulers@.len() == old(self).state().haulers@.len(),
            final(self).state().queued_mutations == old(self).state().queued_mutations,
            // a drill or a coal plant, or a site the topology lacks, spawns nothing
            (item == MINING_DRILL || item == COAL_PLANT
                || crate::topology::node_index_of(old(self).state().topology.nodes@, NodeId::BuildSite(site_index)) is None)
                ==> final(self).state().structures == old(self).state().structures
                    && final(self).state().haulers == old(self).state().haulers
                    && final(self).state().topology.nodes@ == old(self).state().topology.nodes@,
            // otherwise the site becomes a structure of the item on its cell,
            // the cell is blocked, and the hauler heads for it unassigned
            !(item == MINING_DRILL || item == COAL_PLANT
                || crate::topology::node_index_of(old(self).state().topology.nodes@, NodeId::BuildSite(site_index)) is None) ==> {
                let k = crate::topology::node_index_of(old(self).state().topology.nodes@, NodeId::BuildSite(site_index))->0;
                let cell = old(self).state().topology.nodes@[k].position;
                &&& final(self).state().topology.nodes@ == old(self).state().topology.nodes@.update(k,
                        crate::topology::TopologyNode { id: NodeId::Structure(site_index), position: cell })
                &&& final(self).state().topology.blocked@.contains(cell)
                &&& final(self).state().structures@.len() == old(self).state().structures@.len() + 1
                &&& final(self).state().structures@.last().node == NodeId::Structure(site_index)
                &&& final(self).state().structures@.last().item == item
                &&& final(self).state().structures@.last().alerts@.len() == 0
                &&& forall|h: int| 0 <= h < old(self).state().haulers@.len() ==> (#[trigger] final(self).state().haulers@[h])
                    == (if first_index(old(self).state().haulers@, hauler_with(hauler_id)) == Some(h) {
                        Hauler { target: NodeId::Structure(site_index), dispatch: DispatchReceiverState::Unassigned, ..old(self).state().haulers@[h] }
                    } else {
                        old(self).state().haulers@[h]
                    })
            },
    {
        if item == MINING_DRILL || item == COAL_PLANT {
            return;
        }
        let build_site = NodeId::BuildSite(site_index);
        let structure = NodeId::Structure(site_index);
        let ghost nodes = self.world.topology.nodes@;
        let replaced = self.world.topology.replace_node_id(build_site, structure);
        let position = match replaced {
            Some(p) => p,
            None => return,
        };
        proof {
            let n = self.world.topology.nodes@;
            crate::topology::lemma_node_index_in_range(nodes, build_site);
            let k0 = crate::topology::node_index_of(nodes, build_site)->0;
            assert(n == nodes.update(k0, crate::topology::TopologyNode { id: structure, position }));
            assert forall|k: int| 0 <= k < n.len() && (#[trigger] n[k]).id is Generator
                implies (n[k].id->Generator_0) < generator_count(self.world) by {
                if k != k0 {
                    assert(n[k] == nodes[k]);
                }
            }
        }
        self.world.topology.block(position);
        self.world.structures.push(StructureSnapshot { node: structure, item, alerts: AlertHistory::new() });
        let ghost haulers_before = self.state().haulers@;
        match self.hauler_index(hauler_id) {
            Some(h) => {
                self.world.haulers[h].target = structure;
                self.world.haulers[h].clear_assignment();
                proof {
                    let hh = self.state().haulers@[h as int];
                    assert(hh == Hauler { target: structure, dispatch: DispatchReceiverState::Unassigned, ..haulers_before[h as int] });
                    assert(first_index(haulers_before, hauler_with(hauler_id)) == Some(h as int));
                    assert forall|j: int| 0 <= j < haulers_before.len() implies (#[trigger] self.state().haulers@[j])
                        == (if first_index(haulers_before, hauler_with(hauler_id)) == Some(j) {
                            Hauler { target: NodeId::Structure(site_index), dispatch: DispatchReceiverState::Unassigned, ..haulers_before[j] }
                        } else {
                            haulers_before[j]
                        }) by {
                        if j != h {
                            assert(self.state().haulers@[j] == haulers_before[j]);
                        }
                    }
                }
            },
            None => {},
        }
        self.metrics.deployments = self.metrics.deployments.saturating_add(1);
        let mut line = crate::text::text("world spawn ");
        crate::text::push_str(&mut line, item.as_str());
        crate::text::push_str(&mut line, " at ");
        crate::node::push_node(&mut line, structure);
        events.push(line);
        proof {
            let k = crate::topology::node_index_of(nodes, build_site)->0;
            assert(self.state().topology.nodes@ == nodes.update(k, crate::topology::TopologyNode { id: structure, position }));
            assert(self.state().topology.blocked@.contains(position));
            assert(self.state().structures@.last().node == structure);
            assert(self.state().structures@.last().alerts@.len() == 0);
            assert(self.state().structures@.last().item == item);
        }
    }

    /// Applies one queued change to the world.
    fn apply_mutation(&mut self, mutation: WorldMutation, events: &mut Vec<String>)
        requires
            old(self).wf(),
        ensures
            forall|k: int| 0 <= k < old(self).state().sources@.len() ==> {
                &&& (#[trigger] final(self).state().sources@[k]).deployed == deployed_after(old(self).state().sources@, mutation, k)
                &&& final(self).state().sources@[k].exhausted == exhausted_after(old(self).state().sources@, mutation, k)
            },
            forall|h: int| 0 <= h < old(self).state().haulers@.len() ==>
                (#[trigger] final(self).state().haulers@[h]).position == position_after(old(self).state().haulers@, mutation, h),
            forall|h: int| 0 <= h < old(self).state().haulers@.len() ==> (#[trigger] final(self).state().haulers@[h]).id == old(self).state().haulers@[h].id,
            forall|k: int| 0 <= k < old(self).state().sources@.len() ==> (#[trigger] final(self).state().sources@[k]).node == old(self).state().sources@[k].node,
            final(self).state().structures@.len() >= old(self).state().structures@.len(),
            forall|k: int| 0 <= k < old(self).state().structures@.len() ==> #[trigger] final(self).state().structures@[k] == old(self).state().structures@[k],
            final(self).wf(),
            final(self).catalog() == old(self).catalog(),
            final(self).policy() == old(self).policy(),
            final(self).state().tick == old(self).state().tick,
            final(self).state().sources@.len() == old(self).state().sources@.len(),
            final(self).state().factories@.len() == old(self).state().factories@.len(),
            final(self).state().haulers@.len() == old(self).state().haulers@.len(),
            final(self).state().queued_mutations == old(self).state().queued_mutations,
    {
        let ghost before = self.world;
        match mutation {
            WorldMutation::DeploySource(index) => {
                match self.source_index(NodeId::Source(index)) {
                    Some(s) => {
                        let source = &self.world.sources[s];
                        if !(source.deployed || source.occupied_by.is_some() || source.exhausted || source.mining.is_depleted()) {
                            self.world.sources[s].deployed = true;
                            self.metrics.deployments = self.metrics.deployments.saturating_add(1);
                            let mut line = crate::text::text("world deploy mining drill at ");
                            crate::node::push_node(&mut line, self.world.sources[s].node);
                            events.push(line);
                        }
                        proof {
                            assert forall|k: int| 0 <= k < before.sources@.len() implies
                                (#[trigger] self.world.sources@[k]).deployed == deployed_after(before.sources@, mutation, k) by {
                                if k != s { assert(!is_first_source(before.sources@, NodeId::Source(index), k)); }
                            }
                        }
                    },
                    None => {},
                }
            },
            WorldMutation::SpawnGenerator { source_index, item, hauler_id } => {
                self.spawn_generator(source_index, item, hauler_id, events);
            },
            WorldMutation::DeleteDepletedDeposit(index) => {
                match self.source_index(NodeId::Source(index)) {
                    Some(s) => {
                        self.world.sources[s].exhausted = true;
                        self.metrics.world_deletions = self.metrics.world_deletions.saturating_add(1);
                        let mut line = crate::text::text("world delete depleted ore at ");
                        crate::node::push_node(&mut line, self.world.sources[s].node);
                        events.push(line);
                        proof {
                            assert forall|k: int| 0 <= k < before.sources@.len() implies
                                (#[trigger] self.world.sources@[k]).exhausted == exhausted_after(before.sources@, mutation, k) by {
                                if k != s { assert(!is_first_source(before.sources@, NodeId::Source(index), k)); }
                            }
                        }
                    },
                    None => {},
                }
            },
            WorldMutation::TeardownSource(index) => {
                match self.source_index(NodeId::Source(index)) {
                    Some(s) => {
                        self.world.sources[s].deployed = false;
                        let node = self.world.sources[s].node;
                        let cell = self.world.topology.position_or_origin(node);
                        self.world.topology.release(cell);
                        self.metrics.world_deletions = self.metrics.world_deletions.saturating_add(1);
                        let mut line = crate::text::text("world delete depleted mining drill at ");
                        crate::node::push_node(&mut line, node);
                        events.push(line);
                        proof {
                            assert forall|k: int| 0 <= k < before.sources@.len() implies
                                (#[trigger] self.world.sources@[k]).deployed == deployed_after(before.sources@, mutation, k) by {
                                if k != s { assert(!is_first_source(before.sources@, NodeId::Source(index), k)); }
                            }
                        }
                    },
                    None => {},
                }
            },
            WorldMutation::SpawnStructure { site_index, item, hauler_id } => {
                self.spawn_structure(site_index, item, hauler_id, events);
            },
            WorldMutation::MoveHauler { hauler_id, from, to, target } => {
                let mut k: usize = 0;
                while k < self.world.haulers.len() && !(self.world.haulers[k].id == hauler_id && self.world.haulers[k].position == from)
                    invariant
                        k <= self.world.haulers@.len(),
                        forall|j: int| 0 <= j < k ==> !hauler_at(hauler_id, from)(#[trigger] self.world.haulers@[j]),
                    decreases self.world.haulers@.len() - k,
                {
                    k = k + 1;
                }
                if k < self.world.haulers.len() {
                    proof {
                        assert(hauler_at(hauler_id, from)(self.world.haulers@[k as int]));
                        crate::tally::lemma_first_index(self.world.haulers@, hauler_at(hauler_id, from), k as int);
                    }
                    self.world.haulers[k].position = to;
                    let mut line = crate::text::text("move ");
                    push_hauler(&mut line, hauler_id);
                    crate::text::push_str(&mut line, " ");
                    crate::node::push_node(&mut line, from);
                    crate::text::push_str(&mut line, " -> ");
                    crate::node::push_node(&mut line, to);
                    crate::text::push_str(&mut line, " toward ");
                    crate::node::push_node(&mut line, target);
                    events.push(line);
                } else {
                    proof {
                        crate::tally::lemma_first_index(self.world.haulers@, hauler_at(hauler_id, from), k as int);
                    }
                }
            },
        }
    }

    /// Applies the queued changes in order and empties the queue.
    pub fn apply_world_mutations(&mut self, events: &mut Vec<String>)
        requires
            old(self).wf(),
        ensures
            forall|k: int| 0 <= k < old(self).state().sources@.len() && old(self).state().sources@[k].exhausted
                ==> (#[trigger] final(self).state().sources@[k]).exhausted,
            forall|k: int| 0 <= k < old(self).state().sources@.len() ==> (#[trigger] final(self).state().sources@[k]).exhausted
                == exhausted_through(old(self).state().sources@, old(self).state().queued_mutations@)[k].exhausted,
            forall|h: int| 0 <= h < old(self).state().haulers@.len() ==> (#[trigger] final(self).state().haulers@[h]).position
                == positions_through(old(self).state().haulers@, old(self).state().queued_mutations@)[h].position,
            final(self).state().structures@.len() >= old(self).state().structures@.len(),
            forall|k: int| 0 <= k < old(self).state().structures@.len() ==> #[trigger] final(self).state().structures@[k] == old(self).state().structures@[k],
            final(self).wf(),
            final(self).catalog() == old(self).catalog(),
            final(self).policy() == old(self).policy(),
            final(self).state().tick == old(self).state().tick,
            final(self).state().sources@.len() == old(self).state().sources@.len(),
            final(self).state().factories@.len() == old(self).state().factories@.len(),
            final(self).state().haulers@.len() == old(self).state().haulers@.len(),
            final(self).state().queued_mutations@.len() == 0,
    {
        let mut queued: Vec<WorldMutation> = Vec::new();
        std::mem::swap(&mut queued, &mut self.world.queued_mutations);
        proof {
            assert(queued@.take(0) =~= Seq::<WorldMutation>::empty());
        }
        let mut k: usize = 0;
        while k < queued.len()
            invariant
                self.wf(),
                self.catalog() == old(self).catalog(),
                self.policy() == old(self).policy(),
                self.state().tick == old(self).state().tick,
                self.state().sources@.len() == old(self).state().sources@.len(),
                self.state().factories@.len() == old(self).state().factories@.len(),
                self.state().haulers@.len() == old(self).state().haulers@.len(),
                self.state().queued_mutations@.len() == 0,
                k <= queued@.len(),
                forall|j: int| 0 <= j < old(self).state().sources@.len() && old(self).state().sources@[j].exhausted
                    ==> (#[trigger] self.state().sources@[j]).exhausted,
                self.state().structures@.len() >= old(self).state().structures@.len(),
                forall|j: int| 0 <= j < old(self).state().structures@.len() ==> #[trigger] self.state().structures@[j] == old(self).state().structures@[j],
                queued@ == old(self).state().queued_mutations@,
                forall|j: int| 0 <= j < old(self).state().sources@.len() ==> {
                    &&& (#[trigger] self.state().sources@[j]).node == old(self).state().sources@[j].node
                    &&& self.state().sources@[j].exhausted == exhausted_through(old(self).state().sources@, queued@.take(k as int))[j].exhausted
                },
                forall|h: int| 0 <= h < old(self).state().haulers@.len() ==> {
                    &&& (#[trigger] self.state().haulers@[h]).id == old(self).state().haulers@[h].id
                    &&& self.state().haulers@[h].position == positions_through(old(self).state().haulers@, queued@.take(k as int))[h].position
                },
            decreases queued@.len() - k,
        {
            let ghost prev = self.state();
            let ghost done = queued@.take(k as int);
            let ghost sources_before = exhausted_through(old(self).state().sources@, done);
            let ghost haulers_before = positions_through(old(self).state().haulers@, done);
            proof {
                lemma_through_shape(old(self).state().sources@, old(self).state().haulers@, done);
                lemma_exhausted_alike(prev.sources@, sources_before, queued@[k as int]);
                lemma_positions_alike(prev.haulers@, haulers_before, queued@[k as int]);
                assert(queued@.take(k + 1).drop_last() =~= done);
            }
            self.apply_mutation(queued[k], events);
            proof {
                assert forall|j: int| 0 <= j < old(self).state().sources@.len() && old(self).state().sources@[j].exhausted
                    implies (#[trigger] self.state().sources@[j]).exhausted by {
                    assert(prev.sources@[j].exhausted);
                    assert(exhausted_after(prev.sources@, queued@[k as int], j));
                }
                assert forall|j: int| 0 <= j < old(self).state().structures@.len() implies #[trigger] self.state().structures@[j] == old(self).state().structures@[j] by {
                    assert(self.state().structures@[j] == prev.structures@[j]);
                }
            }
            k = k + 1;
        }
        proof {
            assert(queued@.take(k as int) =~= queued@);
        }
    }
}

impl GameState {
    /// Advances the world one tick and returns what happened: receivers move
    /// on, power is generated and shared, deposits are mined, dispatch is
    /// refreshed and assigned, haulers collect, deliver, retrieve and deploy,
    /// lifecycle changes are queued, inserters and factories run, haulers
    /// queue their moves, and the queued changes apply. A tick without events
    /// counts as idle.
    pub fn advance(&mut self) -> (events: Vec<String>)
        requires
            old(self).wf(),
            old(self).state().tick < u64::MAX,
        ensures
            final(self).wf(),
            final(self).catalog() == old(self).catalog(),
            final(self).policy() == old(self).policy(),
            final(self).state().tick == old(self).state().tick + 1,
            final(self).counters().ticks == final(self).state().tick,
            final(self).state().sources@.len() == old(self).state().sources@.len(),
            final(self).state().factories@.len() == old(self).state().factories@.len(),
            final(self).state().haulers@.len() == old(self).state().haulers@.len(),
            final(self).state().queued_mutations@.len() == 0,
    {
        self.world.tick = self.world.tick + 1;
        let mut events: Vec<String> = Vec::new();
        self.advance_receiver_phases(&mut events);
        self.advance_power(&mut events);
        self.advance_mining(&mut events);
        self.refresh_dispatch_intents(&mut events);
        self.assign_dispatch(&mut events);
        self.collect(&mut events);
        self.deliver(&mut events);
        self.retrieve_and_deploy(&mut events);
        self.queue_source_lifecycle();
        self.advance_inserters(&mut events);
        self.advance_production(&mut events);
        self.queue_hauler_movements(&mut events);
        self.apply_world_mutations(&mut events);
        self.metrics.ticks = self.world.tick;
        if events.len() == 0 {
            self.metrics.idle_ticks = self.metrics.idle_ticks.saturating_add(1);
        }
        events
    }

    /// Advances the world one tick and reports it.
    pub fn step(&mut self) -> (r: TickSnapshot)
        requires
            old(self).wf(),
            old(self).state().tick < u64::MAX,
        ensures
            final(self).wf(),
            final(self).catalog() == old(self).catalog(),
            final(self).policy() == old(self).policy(),
            final(self).state().tick == old(self).state().tick + 1,
            final(self).counters().ticks == final(self).state().tick,
            r.tick == final(self).state().tick,
            r.sources@.len() == old(self).state().sources@.len(),
            r.factories@.len() == old(self).state().factories@.len(),
            r.haulers@.len() == old(self).state().haulers@.len(),
            final(self).state().queued_mutations@.len() == 0,
    {
        let events = self.advance();
        self.snapshot(events)
    }

    /// Advances the world one tick without reporting it.
    pub fn advance_without_snapshot(&mut self)
        requires
            old(self).wf(),
            old(self).state().tick < u64::MAX,
        ensures
            final(self).wf(),
            final(self).state().tick == old(self).state().tick + 1,
            final(self).counters().ticks == final(self).state().tick,
    {
        let _ = self.advance();
    }

    /// Empties every battery but those of generators.
    pub fn exhaust_non_generator_batteries(&mut self)
        requires
            old(self).wf(),
        ensures
            final(self).wf(),
            final(self).state().batteries.entries().len() == old(self).state().batteries.entries().len(),
            forall|k: int| 0 <= k < final(self).state().batteries.entries().len() ==> {
                let before = old(self).state().batteries.entries()[k];
                let after = #[trigger] final(self).state().batteries.entries()[k];
                &&& after.owner == before.owner
                &&& after.capacity == before.capacity
                &&& after.energy == (if before.owner matches BatteryOwner::Node(NodeId::Generator(_)) { before.energy } else { 0 })
            },
    {
        let n = self.world.batteries.len();
        let mut k: usize = 0;
        while k < n
            invariant
                self.wf(),
                n == self.world.batteries.entries().len(),
                n == old(self).state().batteries.entries().len(),
                k <= n,
                forall|j: int| 0 <= j < n ==> {
                    let before = old(self).state().batteries.entries()[j];
                    let after = #[trigger] self.state().batteries.entries()[j];
                    &&& after.owner == before.owner
                    &&& after.capacity == before.capacity
                    &&& (j < k ==> after.energy == (if before.owner matches BatteryOwner::Node(NodeId::Generator(_)) { before.energy } else { 0 }))
                    &&& (j >= k ==> after == before)
                },
                self.world.topology == old(self).world.topology,
                self.world.factories == old(self).world.factories,
                self.world.power == old(self).world.power,
                self.content == old(self).content,
                self.dispatch_policy == old(self).dispatch_policy,
            decreases n - k,
        {
            let battery = self.world.batteries.at(k);
            let keep = match battery.owner {
                BatteryOwner::Node(NodeId::Generator(_)) => true,
                _ => false,
            };
            if !keep {
                self.world.batteries.set_at(k, Battery { energy: 0, ..battery });
            }
            k = k + 1;
        }
    }
}


/// The open delivery requests of every board in the world.
pub open spec fn open_intents(w: WorldState) -> nat {
    sum_of(w.sources@, |s: SourceNode| s.dispatch.intents@.len())
        + sum_of(w.factories@, |f: FactoryNode| f.dispatch.intents@.len())
        + sum_of(w.radars@, |r: DeploymentRadar| r.dispatch.intents@.len())
}

/// `n`, or the largest `usize` where `n` does not fit.
pub open spec fn clamp_usize(n: nat) -> nat {
    if n > usize::MAX { usize::MAX as nat } else { n }
}

impl GameState {
    /// Counts that show whether a long run is still doing work: deployed,
    /// occupied and exhausted deposits, generators, claiming radars, open
    /// delivery requests (the largest `usize` where they do not fit), working
    /// and moving haulers, the longest route, queued changes and power lines.
    pub fn liveness_summary(&self) -> (r: LivenessSummary)
        ensures
            r.tick == self.state().tick,
            r.deployed_sources == count_where(self.state().sources@, |s: SourceNode| s.deployed),
            r.occupied_sources == count_where(self.state().sources@, |s: SourceNode| s.occupied_by is Some),
            r.exhausted_sources == count_where(self.state().sources@, |s: SourceNode| s.exhausted),
            r.generators == generator_count(self.state()),
            r.claimed_radars == count_where(self.state().radars@, |d: DeploymentRadar| d.claimed_target is Some),
            r.dispatch_intents == clamp_usize(open_intents(self.state())),
            r.assigned_haulers == count_where(self.state().haulers@, |h: Hauler| h.dispatch is Assigned),
            r.routed_haulers == count_where(self.state().haulers@, |h: Hauler| h.route@.len() > 0),
            r.max_route_len == max_of(self.state().haulers@, |h: Hauler| h.route@.len()),
            r.queued_mutations == self.state().queued_mutations@.len(),
            r.power_links == self.state().generator_power_lines@.len(),
            r.power_line_cells == self.state().power_lines@.len(),
    {
        let w = &self.world;
        let mut deployed_sources: usize = 0;
        let mut occupied_sources: usize = 0;
        let mut exhausted_sources: usize = 0;
        let mut intents: usize = 0;
        let mut k: usize = 0;
        while k < w.sources.len()
            invariant
                k <= w.sources@.len(),
                deployed_sources == count_where(w.sources@.take(k as int), (|s: SourceNode| s.deployed)),
                occupied_sources == count_where(w.sources@.take(k as int), (|s: SourceNode| s.occupied_by is Some)),
                exhausted_sources == count_where(w.sources@.take(k as int), (|s: SourceNode| s.exhausted)),
                intents == clamp_usize(sum_of(w.sources@.take(k as int), (|s: SourceNode| s.dispatch.intents@.len()))),
            decreases w.sources@.len() - k,
        {
            let source = &w.sources[k];
            proof {
                lemma_prefix_step(w.sources@, k as int, (|s: SourceNode| s.deployed), (|s: SourceNode| s.dispatch.intents@.len()));
                lemma_prefix_step(w.sources@, k as int, (|s: SourceNode| s.occupied_by is Some), (|s: SourceNode| s.dispatch.intents@.len()));
                lemma_prefix_step(w.sources@, k as int, (|s: SourceNode| s.exhausted), (|s: SourceNode| s.dispatch.intents@.len()));
                lemma_count_where_bound(w.sources@.take(k as int), (|s: SourceNode| s.deployed));
                lemma_count_where_bound(w.sources@.take(k as int), (|s: SourceNode| s.occupied_by is Some));
                lemma_count_where_bound(w.sources@.take(k as int), (|s: SourceNode| s.exhausted));
            }
            if source.deployed {
                deployed_sources = deployed_sources + 1;
            }
            if source.occupied_by.is_some() {
                occupied_sources = occupied_sources + 1;
            }
            if source.exhausted {
                exhausted_sources = exhausted_sources + 1;
            }
            intents = intents.saturating_add(source.dispatch.intents.len());
            k = k + 1;
        }
        proof {
            assert(w.sources@.take(w.sources@.len() as int) =~= w.sources@);
        }
        let ghost base = sum_of(w.sources@, (|s: SourceNode| s.dispatch.intents@.len()));
        let mut k: usize = 0;
        while k < w.factories.len()
            invariant
                k <= w.factories@.len(),
                intents == clamp_usize(base + sum_of(w.factories@.take(k as int), (|f: FactoryNode| f.dispatch.intents@.len()))),
            decreases w.factories@.len() - k,
        {
            proof {
                lemma_prefix_step(w.factories@, k as int, |f: FactoryNode| true, (|f: FactoryNode| f.dispatch.intents@.len()));
            }
            intents = intents.saturating_add(w.factories[k].dispatch.intents.len());
            k = k + 1;
        }
        proof {
            assert(w.factories@.take(w.factories@.len() as int) =~= w.factories@);
        }
        let ghost base2 = base + sum_of(w.factories@, (|f: FactoryNode| f.dispatch.intents@.len()));
        let mut claimed_radars: usize = 0;
        let mut k: usize = 0;
        while k < w.radars.len()
            invariant
                k <= w.radars@.len(),
                intents == clamp_usize(base2 + sum_of(w.radars@.take(k as int), (|d: DeploymentRadar| d.dispatch.intents@.len()))),
                claimed_radars == count_where(w.radars@.take(k as int), (|d: DeploymentRadar| d.claimed_target is Some)),
            decreases w.radars@.len() - k,
        {
            proof {
                lemma_prefix_step(w.radars@, k as int, (|d: DeploymentRadar| d.claimed_target is Some), (|d: DeploymentRadar| d.dispatch.intents@.len()));
                lemma_count_where_bound(w.radars@.take(k as int), (|d: DeploymentRadar| d.claimed_target is Some));
            }
            intents = intents.saturating_add(w.radars[k].dispatch.intents.len());
            if w.radars[k].claimed_target.is_some() {
                claimed_radars = claimed_radars + 1;
            }
            k = k + 1;
        }
        proof {
            assert(w.radars@.take(w.radars@.len() as int) =~= w.radars@);
        }
        let mut assigned_haulers: usize = 0;
        let mut routed_haulers: usize = 0;
        let mut max_route_len: usize = 0;
        let mut k: usize = 0;
        while k < w.haulers.len()
            invariant
                k <= w.haulers@.len(),
                assigned_haulers == count_where(w.haulers@.take(k as int), (|h: Hauler| h.dispatch is Assigned)),
                routed_haulers == count_where(w.haulers@.take(k as int), (|h: Hauler| h.route@.len() > 0)),
                max_route_len == max_of(w.haulers@.take(k as int), (|h: Hauler| h.route@.len())),
            decreases w.haulers@.len() - k,
        {
            proof {
                lemma_prefix_step(w.haulers@, k as int, (|h: Hauler| h.dispatch is Assigned), (|h: Hauler| h.route@.len()));
                lemma_prefix_step(w.haulers@, k as int, (|h: Hauler| h.route@.len() > 0), (|h: Hauler| h.route@.len()));
                lemma_count_where_bound(w.haulers@.take(k as int), (|h: Hauler| h.dispatch is Assigned));
                lemma_count_where_bound(w.haulers@.take(k as int), (|h: Hauler| h.route@.len() > 0));
            }
            let hauler = &w.haulers[k];
            if let DispatchReceiverState::Assigned(_) = hauler.dispatch {
                assigned_haulers = assigned_haulers + 1;
            }
            let len = hauler.route.len();
            if len > 0 {
                routed_haulers = routed_haulers + 1;
            }
            if len > max_route_len {
                max_route_len = len;
            }
            k = k + 1;
        }
        proof {
            assert(w.haulers@.take(w.haulers@.len() as int) =~= w.haulers@);
        }
        let generators = match &w.power {
            Some(power) => power.generators.len(),
            None => 0,
        };
        LivenessSummary {
            tick: w.tick,
            deployed_sources,
            occupied_sources,
            exhausted_sources,
            generators,
            claimed_radars,
            dispatch_intents: intents,
            assigned_haulers,
            routed_haulers,
            max_route_len,
            queued_mutations: w.queued_mutations.len(),
            power_links: w.generator_power_lines.len(),
            power_line_cells: w.power_lines.len(),
        }
    }
}

} // verus!
