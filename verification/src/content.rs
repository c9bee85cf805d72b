//! The game's static content: item definitions, recipes and the authored
//! scenarios that a simulation starts from.
use vstd::prelude::*;
use crate::text::{str_equals, text};

verus! {

/// Number of items in the catalog.
pub const ITEM_COUNT: usize = 14;

/// An item of the catalog. Variants are declared in the order of their names,
/// so the derived order is the order of the names.
#[derive(Copy, Clone, Debug, PartialEq, Eq, Structural, PartialOrd, Ord, Hash)]
pub enum ItemId {
    BuildingMaterials,
    Circuits,
    Coal,
    CoalPlant,
    CopperBars,
    CopperOre,
    FactoryBuilding,
    Frames,
    IronBars,
    IronOre,
    MiningDrill,
    Motors,
    Stone,
    StorageWarehouse,
}

pub const IRON_ORE: ItemId = ItemId::IronOre;
pub const IRON_BARS: ItemId = ItemId::IronBars;
pub const COPPER_ORE: ItemId = ItemId::CopperOre;
pub const COPPER_BARS: ItemId = ItemId::CopperBars;
pub const COAL: ItemId = ItemId::Coal;
pub const STONE: ItemId = ItemId::Stone;
pub const BUILDING_MATERIALS: ItemId = ItemId::BuildingMaterials;
pub const MOTORS: ItemId = ItemId::Motors;
pub const CIRCUITS: ItemId = ItemId::Circuits;
pub const FRAMES: ItemId = ItemId::Frames;
pub const STORAGE_WAREHOUSE: ItemId = ItemId::StorageWarehouse;
pub const COAL_PLANT: ItemId = ItemId::CoalPlant;
pub const FACTORY_BUILDING: ItemId = ItemId::FactoryBuilding;
pub const MINING_DRILL: ItemId = ItemId::MiningDrill;

/// The position of an item in the catalog, which is the rank of its name.
pub open spec fn item_rank(item: ItemId) -> nat {
    match item {
        ItemId::BuildingMaterials => 0,
        ItemId::Circuits => 1,
        ItemId::Coal => 2,
        ItemId::CoalPlant => 3,
        ItemId::CopperBars => 4,
        ItemId::CopperOre => 5,
        ItemId::FactoryBuilding => 6,
        ItemId::Frames => 7,
        ItemId::IronBars => 8,
        ItemId::IronOre => 9,
        ItemId::MiningDrill => 10,
        ItemId::Motors => 11,
        ItemId::Stone => 12,
        ItemId::StorageWarehouse => 13,
    }
}

/// The item at a catalog position.
pub open spec fn item_at(rank: nat) -> ItemId {
    if rank == 0 { ItemId::BuildingMaterials } else if rank == 1 { ItemId::Circuits }
    else if rank == 2 { ItemId::Coal } else if rank == 3 { ItemId::CoalPlant }
    else if rank == 4 { ItemId::CopperBars } else if rank == 5 { ItemId::CopperOre }
    else if rank == 6 { ItemId::FactoryBuilding } else if rank == 7 { ItemId::Frames }
    else if rank == 8 { ItemId::IronBars } else if rank == 9 { ItemId::IronOre }
    else if rank == 10 { ItemId::MiningDrill } else if rank == 11 { ItemId::Motors }
    else if rank == 12 { ItemId::Stone } else { ItemId::StorageWarehouse }
}

/// The stable name of an item.
pub open spec fn item_name(item: ItemId) -> Seq<char> {
    match item {
        ItemId::BuildingMaterials => "building_materials"@,
        ItemId::Circuits => "circuits"@,
        ItemId::Coal => "coal"@,
        ItemId::CoalPlant => "coal_plant"@,
        ItemId::CopperBars => "copper_bars"@,
        ItemId::CopperOre => "copper_ore"@,
        ItemId::FactoryBuilding => "factory"@,
        ItemId::Frames => "frames"@,
        ItemId::IronBars => "iron_bars"@,
        ItemId::IronOre => "iron_ore"@,
        ItemId::MiningDrill => "mining_drill"@,
        ItemId::Motors => "motors"@,
        ItemId::Stone => "stone"@,
        ItemId::StorageWarehouse => "storage_warehouse"@,
    }
}

pub proof fn lemma_item_rank_bijective(item: ItemId)
    ensures
        item_rank(item) < ITEM_COUNT,
        item_at(item_rank(item)) == item,
{
}

impl ItemId {
    /// The catalog position of the item.
    pub fn index(self) -> (r: usize)
        ensures
            r == item_rank(self),
            r < ITEM_COUNT,
    {
        match self {
            ItemId::BuildingMaterials => 0,
            ItemId::Circuits => 1,
            ItemId::Coal => 2,
            ItemId::CoalPlant => 3,
            ItemId::CopperBars => 4,
            ItemId::CopperOre => 5,
            ItemId::FactoryBuilding => 6,
            ItemId::Frames => 7,
            ItemId::IronBars => 8,
            ItemId::IronOre => 9,
            ItemId::MiningDrill => 10,
            ItemId::Motors => 11,
            ItemId::Stone => 12,
            ItemId::StorageWarehouse => 13,
        }
    }

    /// The item at a catalog position.
    pub fn from_index(rank: usize) -> (r: ItemId)
        requires
            rank < ITEM_COUNT,
        ensures
            r == item_at(rank as nat),
            item_rank(r) == rank,
    {
        if rank == 0 { ItemId::BuildingMaterials } else if rank == 1 { ItemId::Circuits }
        else if rank == 2 { ItemId::Coal } else if rank == 3 { ItemId::CoalPlant }
        else if rank == 4 { ItemId::CopperBars } else if rank == 5 { ItemId::CopperOre }
        else if rank == 6 { ItemId::FactoryBuilding } else if rank == 7 { ItemId::Frames }
        else if rank == 8 { ItemId::IronBars } else if rank == 9 { ItemId::IronOre }
        else if rank == 10 { ItemId::MiningDrill } else if rank == 11 { ItemId::Motors }
        else if rank == 12 { ItemId::Stone } else { ItemId::StorageWarehouse }
    }

    /// The stable name of the item.
    pub fn as_str(self) -> (s: &'static str)
        ensures
            s@ == item_name(self),
    {
        match self {
            ItemId::BuildingMaterials => "building_materials",
            ItemId::Circuits => "circuits",
            ItemId::Coal => "coal",
            ItemId::CoalPlant => "coal_plant",
            ItemId::CopperBars => "copper_bars",
            ItemId::CopperOre => "copper_ore",
            ItemId::FactoryBuilding => "factory",
            ItemId::Frames => "frames",
            ItemId::IronBars => "iron_bars",
            ItemId::IronOre => "iron_ore",
            ItemId::MiningDrill => "mining_drill",
            ItemId::Motors => "motors",
            ItemId::Stone => "stone",
            ItemId::StorageWarehouse => "storage_warehouse",
        }
    }

    /// The item whose stable name is `value`, if the catalog has one.
    pub fn new(value: &str) -> (r: Option<ItemId>)
        ensures
            r matches Some(item) ==> item_name(item) == value@,
            r is None ==> forall|item: ItemId| item_name(item) != value@,
    {
        let mut rank: usize = 0;
        while rank < ITEM_COUNT
            invariant
                rank <= ITEM_COUNT,
                forall|k: nat| k < rank ==> item_name(#[trigger] item_at(k)) != value@,
            decreases ITEM_COUNT - rank,
        {
            let item = ItemId::from_index(rank);
            if str_equals(item.as_str(), value) {
                return Some(item);
            }
            rank = rank + 1;
        }
        proof {
            assert forall|item: ItemId| item_name(item) != value@ by {
                lemma_item_rank_bijective(item);
                assert(item_name(item_at(item_rank(item))) != value@);
            }
        }
        None
    }
}

/// The name under which a scenario is selected.
#[derive(Copy, Clone, Debug, PartialEq, Eq, Structural, PartialOrd, Ord, Hash)]
pub enum ScenarioId {
    BuildingDeployment,
    BuildingMaterials,
    DeploymentDemo,
    DistributedChain,
    FourCornersWorks,
    HybridGrid,
    IronBars,
    IronBarsFleet,
    LegacyAssemblyYard,
    PathfindingDemo,
    PowerLineDemo,
    PoweredIronworks,
    ProductionChain,
    TwinPlantBasin,
    V2World,
}

pub const IRON_BARS_SCENARIO: ScenarioId = ScenarioId::IronBars;
pub const IRON_BARS_FLEET_SCENARIO: ScenarioId = ScenarioId::IronBarsFleet;
pub const BUILDING_MATERIALS_SCENARIO: ScenarioId = ScenarioId::BuildingMaterials;
pub const POWERED_IRONWORKS_SCENARIO: ScenarioId = ScenarioId::PoweredIronworks;
pub const DEPLOYMENT_DEMO_SCENARIO: ScenarioId = ScenarioId::DeploymentDemo;
pub const PATHFINDING_DEMO_SCENARIO: ScenarioId = ScenarioId::PathfindingDemo;
pub const PRODUCTION_CHAIN_SCENARIO: ScenarioId = ScenarioId::ProductionChain;
pub const DISTRIBUTED_CHAIN_SCENARIO: ScenarioId = ScenarioId::DistributedChain;
pub const POWER_LINE_SCENARIO: ScenarioId = ScenarioId::PowerLineDemo;
pub const BUILDING_DEPLOYMENT_SCENARIO: ScenarioId = ScenarioId::BuildingDeployment;
pub const HYBRID_GRID_SCENARIO: ScenarioId = ScenarioId::HybridGrid;
pub const V2_WORLD_SCENARIO: ScenarioId = ScenarioId::V2World;
pub const LEGACY_ASSEMBLY_YARD_SCENARIO: ScenarioId = ScenarioId::LegacyAssemblyYard;
pub const TWIN_PLANT_BASIN_SCENARIO: ScenarioId = ScenarioId::TwinPlantBasin;
pub const FOUR_CORNERS_WORKS_SCENARIO: ScenarioId = ScenarioId::FourCornersWorks;

/// Number of authored scenarios.
pub const SCENARIO_COUNT: usize = 15;

/// The position of a scenario among the authored ones, by name.
pub open spec fn scenario_rank(id: ScenarioId) -> nat {
    match id {
        ScenarioId::BuildingDeployment => 0,
        ScenarioId::BuildingMaterials => 1,
        ScenarioId::DeploymentDemo => 2,
        ScenarioId::DistributedChain => 3,
        ScenarioId::FourCornersWorks => 4,
        ScenarioId::HybridGrid => 5,
        ScenarioId::IronBars => 6,
        ScenarioId::IronBarsFleet => 7,
        ScenarioId::LegacyAssemblyYard => 8,
        ScenarioId::PathfindingDemo => 9,
        ScenarioId::PowerLineDemo => 10,
        ScenarioId::PoweredIronworks => 11,
        ScenarioId::ProductionChain => 12,
        ScenarioId::TwinPlantBasin => 13,
        ScenarioId::V2World => 14,
    }
}

/// The stable name of a scenario.
pub open spec fn scenario_name(id: ScenarioId) -> Seq<char> {
    match id {
        ScenarioId::BuildingDeployment => "building-deployment"@,
        ScenarioId::BuildingMaterials => "building-materials"@,
        ScenarioId::DeploymentDemo => "deployment-demo"@,
        ScenarioId::DistributedChain => "distributed-chain"@,
        ScenarioId::FourCornersWorks => "four-corners-works"@,
        ScenarioId::HybridGrid => "hybrid-grid"@,
        ScenarioId::IronBars => "iron-bars"@,
        ScenarioId::IronBarsFleet => "iron-bars-fleet"@,
        ScenarioId::LegacyAssemblyYard => "legacy-assembly-yard"@,
        ScenarioId::PathfindingDemo => "pathfinding-demo"@,
        ScenarioId::PowerLineDemo => "power-line-demo"@,
        ScenarioId::PoweredIronworks => "powered-ironworks"@,
        ScenarioId::ProductionChain => "production-chain"@,
        ScenarioId::TwinPlantBasin => "twin-plant-basin"@,
        ScenarioId::V2World => "v2-world"@,
    }
}

/// The scenario at a position among the authored ones.
pub open spec fn scenario_at(rank: nat) -> ScenarioId {
    if rank == 0 { ScenarioId::BuildingDeployment } else if rank == 1 { ScenarioId::BuildingMaterials }
    else if rank == 2 { ScenarioId::DeploymentDemo } else if rank == 3 { ScenarioId::DistributedChain }
    else if rank == 4 { ScenarioId::FourCornersWorks } else if rank == 5 { ScenarioId::HybridGrid }
    else if rank == 6 { ScenarioId::IronBars } else if rank == 7 { ScenarioId::IronBarsFleet }
    else if rank == 8 { ScenarioId::LegacyAssemblyYard } else if rank == 9 { ScenarioId::PathfindingDemo }
    else if rank == 10 { ScenarioId::PowerLineDemo } else if rank == 11 { ScenarioId::PoweredIronworks }
    else if rank == 12 { ScenarioId::ProductionChain } else if rank == 13 { ScenarioId::TwinPlantBasin }
    else { ScenarioId::V2World }
}

impl ScenarioId {
    fn from_rank(rank: usize) -> (r: ScenarioId)
        requires
            rank < SCENARIO_COUNT,
        ensures
            r == scenario_at(rank as nat),
    {
        if rank == 0 { ScenarioId::BuildingDeployment } else if rank == 1 { ScenarioId::BuildingMaterials }
        else if rank == 2 { ScenarioId::DeploymentDemo } else if rank == 3 { ScenarioId::DistributedChain }
        else if rank == 4 { ScenarioId::FourCornersWorks } else if rank == 5 { ScenarioId::HybridGrid }
        else if rank == 6 { ScenarioId::IronBars } else if rank == 7 { ScenarioId::IronBarsFleet }
        else if rank == 8 { ScenarioId::LegacyAssemblyYard } else if rank == 9 { ScenarioId::PathfindingDemo }
        else if rank == 10 { ScenarioId::PowerLineDemo } else if rank == 11 { ScenarioId::PoweredIronworks }
        else if rank == 12 { ScenarioId::ProductionChain } else if rank == 13 { ScenarioId::TwinPlantBasin }
        else { ScenarioId::V2World }
    }

    /// The scenario whose stable name is `value`, if one was authored under it.
    pub fn new(value: &str) -> (r: Option<ScenarioId>)
        ensures
            r matches Some(id) ==> scenario_name(id) == value@,
            r is None ==> forall|id: ScenarioId| scenario_name(id) != value@,
    {
        let mut rank: usize = 0;
        while rank < SCENARIO_COUNT
            invariant
                rank <= SCENARIO_COUNT,
                forall|k: nat| k < rank ==> scenario_name(#[trigger] scenario_at(k)) != value@,
            decreases SCENARIO_COUNT - rank,
        {
            let id = ScenarioId::from_rank(rank);
            if str_equals(id.as_str(), value) {
                return Some(id);
            }
            rank = rank + 1;
        }
        proof {
            assert forall|id: ScenarioId| scenario_name(id) != value@ by {
                assert(scenario_at(scenario_rank(id)) == id);
                assert(scenario_name(scenario_at(scenario_rank(id))) != value@);
            }
        }
        None
    }

    /// The stable name of the scenario.
    pub fn as_str(self) -> (s: &'static str)
        ensures
            s@ == scenario_name(self),
    {
        match self {
            ScenarioId::BuildingDeployment => "building-deployment",
            ScenarioId::BuildingMaterials => "building-materials",
            ScenarioId::DeploymentDemo => "deployment-demo",
            ScenarioId::DistributedChain => "distributed-chain",
            ScenarioId::FourCornersWorks => "four-corners-works",
            ScenarioId::HybridGrid => "hybrid-grid",
            ScenarioId::IronBars => "iron-bars",
            ScenarioId::IronBarsFleet => "iron-bars-fleet",
            ScenarioId::LegacyAssemblyYard => "legacy-assembly-yard",
            ScenarioId::PathfindingDemo => "pathfinding-demo",
            ScenarioId::PowerLineDemo => "power-line-demo",
            ScenarioId::PoweredIronworks => "powered-ironworks",
            ScenarioId::ProductionChain => "production-chain",
            ScenarioId::TwinPlantBasin => "twin-plant-basin",
            ScenarioId::V2World => "v2-world",
        }
    }
}

/// A catalog entry: physical values, recipe and flags of one item.
#[derive(Clone, Debug, PartialEq, Eq)]
pub struct ItemDefinition {
    pub id: ItemId,
    pub name: String,
    pub weight: u32,
    pub volume: u32,
    pub stack_size: u32,
    pub craft_time: u32,
    pub craft_output: u32,
    /// Recipe inputs, ordered by item.
    pub ingredients: Vec<(ItemId, u32)>,
    pub create_from_nothing: bool,
    pub can_spawn_game_object: bool,
}

/// Whether a list of item quantities is ordered by item, each item once.
pub open spec fn items_ordered(s: Seq<(ItemId, u32)>) -> bool {
    forall|i: int, j: int| 0 <= i < j < s.len() ==> item_rank(#[trigger] s[i].0) < item_rank(#[trigger] s[j].0)
}

impl ItemDefinition {
    pub fn new(
        id: ItemId,
        name: &str,
        weight: u32,
        volume: u32,
        stack_size: u32,
        craft_time: u32,
        craft_output: u32,
        ingredients: Vec<(ItemId, u32)>,
    ) -> (r: Self)
        ensures
            r.id == id,
            r.name@ == name@,
            r.weight == weight,
            r.volume == volume,
            r.stack_size == stack_size,
            r.craft_time == craft_time,
            r.craft_output == craft_output,
            r.ingredients@ == ingredients@,
            !r.create_from_nothing,
            !r.can_spawn_game_object,
    {
        ItemDefinition {
            id,
            name: text(name),
            weight,
            volume,
            stack_size,
            craft_time,
            craft_output,
            ingredients,
            create_from_nothing: false,
            can_spawn_game_object: false,
        }
    }

    pub fn with_create_from_nothing(self) -> (r: Self)
        ensures
            r == (ItemDefinition { create_from_nothing: true, ..self }),
    {
        let mut r = self;
        r.create_from_nothing = true;
        r
    }

    pub fn with_spawnable_game_object(self) -> (r: Self)
        ensures
            r == (ItemDefinition { can_spawn_game_object: true, ..self }),
    {
        let mut r = self;
        r.can_spawn_game_object = true;
        r
    }
}

/// A mineable deposit of a scenario.
#[derive(Clone, Debug, PartialEq, Eq)]
pub struct SourceSpec {
    pub item: ItemId,
    pub deposit: u32,
    pub mining_speed: u32,
    pub requires_deployment: bool,
}

/// A site where a spawnable item is built.
#[derive(Clone, Debug, PartialEq, Eq)]
pub struct BuildSiteSpec {
    pub item: ItemId,
    pub position: GridPoint,
}

/// A radar that claims deposits for deployments.
#[derive(Clone, Debug, PartialEq, Eq)]
pub struct RadarSpec {
    pub deployment_item: ItemId,
    pub target_item: ItemId,
    pub position: GridPoint,
}

/// A cell of an authored layout.
#[derive(Copy, Clone, Debug, PartialEq, Eq, Structural, PartialOrd, Ord, Hash)]
pub struct GridPoint {
    pub x: i32,
    pub y: i32,
}

/// Where the objects of a scenario stand.
#[derive(Clone, Debug, PartialEq, Eq)]
pub struct LayoutSpec {
    pub width: i32,
    pub height: i32,
    pub source_positions: Vec<GridPoint>,
    pub road_position: GridPoint,
    pub factory_positions: Vec<GridPoint>,
    pub generator_positions: Vec<GridPoint>,
    pub hauler_positions: Vec<GridPoint>,
    pub obstacles: Vec<GridPoint>,
}

impl LayoutSpec {
    /// A three-column layout: deposits down the first column, the road and the
    /// factory on the first row, and optionally a generator under the factory.
    pub fn linear(source_count: u16, include_generator: bool) -> (r: Self)
        ensures
            r.width == 3,
            r.height == if source_count < 2 { 2 } else { source_count as int },
            r.source_positions@.len() == source_count,
            forall|i: int| 0 <= i < source_count ==> #[trigger] r.source_positions@[i] == (GridPoint { x: 0, y: i as i32 }),
            r.road_position == (GridPoint { x: 1, y: 0 }),
            r.factory_positions@ == seq![GridPoint { x: 2, y: 0 }],
            r.generator_positions@ == (if include_generator { seq![GridPoint { x: 2, y: 1 }] } else { Seq::<GridPoint>::empty() }),
            r.hauler_positions@.len() == 0,
            r.obstacles@.len() == 0,
    {
        let mut source_positions: Vec<GridPoint> = Vec::new();
        let mut index: u16 = 0;
        while index < source_count
            invariant
                index <= source_count,
                source_positions@.len() == index,
                forall|i: int| 0 <= i < index ==> #[trigger] source_positions@[i] == (GridPoint { x: 0, y: i as i32 }),
            decreases source_count - index,
        {
            source_positions.push(GridPoint { x: 0, y: index as i32 });
            index = index + 1;
        }
        let mut generator_positions: Vec<GridPoint> = Vec::new();
        if include_generator {
            generator_positions.push(GridPoint { x: 2, y: 1 });
        }
        let height: i32 = if source_count < 2 { 2 } else { source_count as i32 };
        LayoutSpec {
            width: 3,
            height,
            source_positions,
            road_position: GridPoint { x: 1, y: 0 },
            factory_positions: vec![GridPoint { x: 2, y: 0 }],
            generator_positions,
            hauler_positions: Vec::new(),
            obstacles: Vec::new(),
        }
    }
}

/// A factory of a scenario and the buffers it keeps.
#[derive(Clone, Debug, PartialEq, Eq)]
pub struct FactorySpec {
    pub product_item: ItemId,
    pub input_buffer: u32,
    pub output_buffer: u32,
    /// Items the factory starts with, ordered by item.
    pub starting_items: Vec<(ItemId, u32)>,
}

impl FactorySpec {
    pub fn new(product_item: ItemId, input_buffer: u32, output_buffer: u32) -> (r: Self)
        ensures
            r.product_item == product_item,
            r.input_buffer == input_buffer,
            r.output_buffer == output_buffer,
            r.starting_items@.len() == 0,
    {
        FactorySpec { product_item, input_buffer, output_buffer, starting_items: Vec::new() }
    }

    pub fn with_starting_items(self, starting_items: Vec<(ItemId, u32)>) -> (r: Self)
        ensures
            r == (FactorySpec { starting_items, ..self }),
    {
        let mut r = self;
        r.starting_items = starting_items;
        r
    }
}

/// The power grid of a scenario.
#[derive(Clone, Debug, PartialEq, Eq)]
pub struct PowerSpec {
    pub generators: Vec<GeneratorSpec>,
    pub mining_cost: u32,
    pub dispatch_cost: u32,
    pub production_cost: u32,
    pub object_batteries: ObjectBatterySpec,
}

impl PowerSpec {
    /// A copy of the spec.
    pub fn duplicate(&self) -> (r: Self)
        ensures
            r.generators@ == self.generators@,
            r.mining_cost == self.mining_cost,
            r.dispatch_cost == self.dispatch_cost,
            r.production_cost == self.production_cost,
            r.object_batteries == self.object_batteries,
    {
        let mut generators: Vec<GeneratorSpec> = Vec::new();
        let mut k: usize = 0;
        while k < self.generators.len()
            invariant
                k <= self.generators@.len(),
                generators@ == self.generators@.take(k as int),
            decreases self.generators@.len() - k,
        {
            let g = &self.generators[k];
            generators.push(GeneratorSpec {
                item: g.item,
                fuel_item: g.fuel_item,
                initial_fuel: g.initial_fuel,
                fuel_buffer: g.fuel_buffer,
                burn_rate: g.burn_rate,
                gain_rate: g.gain_rate,
                grid_capacity: g.grid_capacity,
            });
            k = k + 1;
            assert(generators@ =~= self.generators@.take(k as int));
        }
        assert(self.generators@.take(k as int) =~= self.generators@);
        let b = &self.object_batteries;
        PowerSpec {
            generators,
            mining_cost: self.mining_cost,
            dispatch_cost: self.dispatch_cost,
            production_cost: self.production_cost,
            object_batteries: ObjectBatterySpec {
                source_capacity: b.source_capacity,
                factory_capacity: b.factory_capacity,
                hauler_capacity: b.hauler_capacity,
                start_charged: b.start_charged,
            },
        }
    }
}

/// The batteries that objects of a powered scenario carry.
#[derive(Clone, Debug, PartialEq, Eq)]
pub struct ObjectBatterySpec {
    pub source_capacity: u32,
    pub factory_capacity: u32,
    pub hauler_capacity: u32,
    pub start_charged: bool,
}

impl ObjectBatterySpec {
    pub fn default() -> (r: Self)
        ensures
            r.source_capacity == 100,
            r.factory_capacity == 1_000,
            r.hauler_capacity == 250,
            !r.start_charged,
    {
        ObjectBatterySpec { source_capacity: 100, factory_capacity: 1_000, hauler_capacity: 250, start_charged: false }
    }
}

/// A generator of a power grid.
#[derive(Clone, Debug, PartialEq, Eq)]
pub struct GeneratorSpec {
    pub item: Option<ItemId>,
    pub fuel_item: Option<ItemId>,
    pub initial_fuel: u32,
    pub fuel_buffer: u32,
    pub burn_rate: u32,
    pub gain_rate: u32,
    pub grid_capacity: u32,
}

impl GeneratorSpec {
    /// A coal plant that burns four coal per tick for 160 energy.
    pub fn coal_plant(initial_fuel: u32) -> (r: Self)
        ensures
            r == (GeneratorSpec {
                item: Some(COAL_PLANT),
                fuel_item: Some(COAL),
                initial_fuel,
                fuel_buffer: 4_000,
                burn_rate: 4,
                gain_rate: 160,
                grid_capacity: 10_000,
            }),
    {
        GeneratorSpec {
            item: Some(COAL_PLANT),
            fuel_item: Some(COAL),
            initial_fuel,
            fuel_buffer: 4_000,
            burn_rate: 4,
            gain_rate: 160,
            grid_capacity: 10_000,
        }
    }
}

/// An authored scenario.
#[derive(Clone, Debug, PartialEq, Eq)]
pub struct ScenarioDefinition {
    pub id: ScenarioId,
    pub name: String,
    pub sources: Vec<SourceSpec>,
    pub factories: Vec<FactorySpec>,
    pub build_sites: Vec<BuildSiteSpec>,
    pub radars: Vec<RadarSpec>,
    pub hauler_count: u32,
    pub hauler_capacity: u32,
    pub hauler_weight_capacity: u32,
    pub hauler_volume_capacity: u32,
    pub power: Option<PowerSpec>,
    pub layout: LayoutSpec,
}

/// The item catalog and the authored scenarios.
#[derive(Clone, Debug, PartialEq, Eq)]
pub struct ContentDatabase {
    /// One definition per item, in catalog order.
    pub items: Vec<ItemDefinition>,
    /// The authored scenarios, ordered by name.
    pub scenarios: Vec<ScenarioDefinition>,
}

impl ContentDatabase {
    /// Every item has its definition at its catalog position, and every
    /// recipe lists its inputs in item order.
    pub open spec fn wf(&self) -> bool {
        &&& self.items@.len() == ITEM_COUNT
        &&& forall|k: int| 0 <= k < ITEM_COUNT ==> item_rank(#[trigger] self.items@[k].id) == k
        &&& forall|k: int| 0 <= k < ITEM_COUNT ==> items_ordered(#[trigger] self.items@[k].ingredients@)
    }

    /// The definition of an item.
    pub open spec fn def(&self, id: ItemId) -> ItemDefinition {
        self.items@[item_rank(id) as int]
    }

    /// The definition of an item.
    pub fn item(&self, id: ItemId) -> (r: &ItemDefinition)
        requires
            self.wf(),
        ensures
            *r == self.def(id),
            r.id == id,
    {
        proof { lemma_item_rank_bijective(id); }
        let r = &self.items[id.index()];
        proof {
            lemma_item_rank_bijective(r.id);
        }
        r
    }

    /// Where a scenario is stored, if the database has it.
    pub fn scenario_index(&self, id: ScenarioId) -> (r: Option<usize>)
        ensures
            r matches Some(k) ==> k < self.scenarios@.len() && self.scenarios@[k as int].id == id
                && forall|j: int| 0 <= j < k ==> self.scenarios@[j].id != id,
            r is None ==> forall|j: int| 0 <= j < self.scenarios@.len() ==> self.scenarios@[j].id != id,
    {
        let mut k: usize = 0;
        while k < self.scenarios.len()
            invariant
                k <= self.scenarios@.len(),
                forall|j: int| 0 <= j < k ==> self.scenarios@[j].id != id,
            decreases self.scenarios@.len() - k,
        {
            if self.scenarios[k].id == id {
                return Some(k);
            }
            k = k + 1;
        }
        None
    }

    /// Whether the database holds a scenario.
    pub open spec fn has_scenario(&self, id: ScenarioId) -> bool {
        exists|j: int| 0 <= j < self.scenarios@.len() && self.scenarios@[j].id == id
    }

    /// The first stored scenario with the given id.
    pub fn scenario(&self, id: ScenarioId) -> (r: &ScenarioDefinition)
        requires
            self.has_scenario(id),
        ensures
            r.id == id,
            exists|j: int| 0 <= j < self.scenarios@.len() && self.scenarios@[j] == *r,
    {
        let k = self.scenario_index(id);
        match k {
            Some(k) => &self.scenarios[k],
            None => {
                proof {
                    let j = choose|j: int| 0 <= j < self.scenarios@.len() && self.scenarios@[j].id == id;
                    assert(self.scenarios@[j].id != id);
                }
                &self.scenarios[0]
            }
        }
    }
}

/// The scenario of the content with a name, or the message naming the
/// unknown one.
pub fn parse_scenario(content: &ContentDatabase, value: &str) -> (r: Result<ScenarioId, String>)
    ensures
        r matches Ok(id) ==> scenario_name(id) == value@
            && exists|k: int| 0 <= k < content.scenarios@.len() && (#[trigger] content.scenarios@[k]).id == id,
        r matches Err(message) ==> message@ == "unknown scenario: "@ + value@
            && forall|k: int| 0 <= k < content.scenarios@.len() ==> scenario_name((#[trigger] content.scenarios@[k]).id) != value@,
{
    let mut k: usize = 0;
    while k < content.scenarios.len()
        invariant
            k <= content.scenarios@.len(),
            forall|j: int| 0 <= j < k ==> scenario_name((#[trigger] content.scenarios@[j]).id) != value@,
        decreases content.scenarios@.len() - k,
    {
        let id = content.scenarios[k].id;
        if str_equals(id.as_str(), value) {
            return Ok(id);
        }
        k = k + 1;
    }
    let mut message = text("unknown scenario: ");
    message.append(value);
    proof {
        reveal_strlit("unknown scenario: ");
    }
    Err(message)
}

} // verus!
