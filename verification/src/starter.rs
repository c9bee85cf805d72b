//! The starter catalog and the authored scenarios.
use vstd::prelude::*;
use crate::content::{
    item_rank, items_ordered, lemma_item_rank_bijective, scenario_rank, BuildSiteSpec, ContentDatabase, FactorySpec,
    GeneratorSpec, GridPoint, ItemDefinition, ItemId, LayoutSpec, ObjectBatterySpec, PowerSpec,
    RadarSpec, ScenarioDefinition, SourceSpec, BUILDING_DEPLOYMENT_SCENARIO, BUILDING_MATERIALS,
    BUILDING_MATERIALS_SCENARIO, CIRCUITS, COAL, COAL_PLANT, COPPER_BARS, COPPER_ORE,
    DEPLOYMENT_DEMO_SCENARIO, DISTRIBUTED_CHAIN_SCENARIO, FACTORY_BUILDING,
    FOUR_CORNERS_WORKS_SCENARIO, FRAMES, HYBRID_GRID_SCENARIO, IRON_BARS, IRON_BARS_FLEET_SCENARIO,
    IRON_BARS_SCENARIO, IRON_ORE, ITEM_COUNT, LEGACY_ASSEMBLY_YARD_SCENARIO, MINING_DRILL, MOTORS,
    PATHFINDING_DEMO_SCENARIO, POWERED_IRONWORKS_SCENARIO, POWER_LINE_SCENARIO,
    PRODUCTION_CHAIN_SCENARIO, SCENARIO_COUNT, STONE, STORAGE_WAREHOUSE, TWIN_PLANT_BASIN_SCENARIO,
    V2_WORLD_SCENARIO,
};
use crate::text::text;

verus! {

const V2_MAP_SIZE: i32 = 50;
const V2_ORE_PER_ITEM: usize = 141;
const V2_RANDOM_SEED: u32 = 4_382_721;

/// A cell of the 50x50 worlds, given relative to its centre.
fn v2_position(x: i32, y: i32) -> (r: GridPoint)
    requires
        -25 <= x <= 25,
        -25 <= y <= 25,
    ensures
        r.x == 25 + x,
        r.y == 25 + y,
{
    GridPoint { x: V2_MAP_SIZE / 2 + x, y: V2_MAP_SIZE / 2 + y }
}

/// The linear congruential generator that scatters the v2 world's deposits.
struct V2WorldRng {
    state: u32,
}

impl V2WorldRng {
    fn new(seed: u32) -> (r: Self)
        ensures
            r.state == seed,
    {
        V2WorldRng { state: seed }
    }

    fn next(&mut self) -> (r: u32)
        ensures
            r == final(self).state,
            final(self).state == ((old(self).state as int * 1_664_525 + 1_013_904_223) % 0x1_0000_0000),
    {
        let product: u32 = self.state.wrapping_mul(1_664_525);
        self.state = product.wrapping_add(1_013_904_223);
        proof {
            let a = old(self).state as int;
            assert(product as int == (a * 1_664_525) % 0x1_0000_0000);
            assert(self.state as int == (product as int + 1_013_904_223) % 0x1_0000_0000);
            vstd::arithmetic::div_mod::lemma_add_mod_noop(a * 1_664_525, 1_013_904_223, 0x1_0000_0000);
            vstd::arithmetic::div_mod::lemma_mod_twice(1_013_904_223, 0x1_0000_0000);
        }
        self.state
    }
}

/// Whether a cell of the 50x50 world is outside the central district and
/// free of deposits.
pub open spec fn v2_free(occupied: Seq<bool>, x: int, y: int) -> bool {
    (x - 25) * (x - 25) + (y - 25) * (y - 25) > 100 && !occupied[y * 50 + x]
}

/// Whether any cell of the 50x50 world could take a generated deposit.
pub open spec fn v2_any_free(occupied: Seq<bool>) -> bool {
    exists|x: int, y: int| 0 <= x < 50 && 0 <= y < 50 && #[trigger] v2_free(occupied, x, y)
}

/// Whether a generated deposit may stand at a cell: outside the central
/// district and not on another deposit.
fn v2_cell_free(occupied: &Vec<bool>, x: i32, y: i32) -> (r: bool)
    requires
        occupied@.len() == 2500,
        0 <= x < 50,
        0 <= y < 50,
    ensures
        r == v2_free(occupied@, x as int, y as int),
{
    let dx: i32 = x - V2_MAP_SIZE / 2;
    let dy: i32 = y - V2_MAP_SIZE / 2;
    assert(-25 <= dx <= 25 && -25 <= dy <= 25);
    assert(0 <= dx * dx <= 625) by (nonlinear_arith) requires -25 <= dx <= 25;
    assert(0 <= dy * dy <= 625) by (nonlinear_arith) requires -25 <= dy <= 25;
    assert(0 <= y * 50 + x < 2500) by (nonlinear_arith) requires 0 <= x < 50, 0 <= y < 50;
    dx * dx + dy * dy > 100 && !occupied[(y * 50 + x) as usize]
}

/// The next free cell for a generated deposit: ten random draws, then the
/// first free cell in row order.
fn v2_ore_position(rng: &mut V2WorldRng, occupied: &mut Vec<bool>) -> (r: GridPoint)
    requires
        old(occupied)@.len() == 2500,
    ensures
        final(occupied)@.len() == 2500,
        0 <= r.x < 50,
        0 <= r.y < 50,
        v2_any_free(old(occupied)@) ==> v2_free(old(occupied)@, r.x as int, r.y as int)
            && final(occupied)@ == old(occupied)@.update(r.y * 50 + r.x, true),
        !v2_any_free(old(occupied)@) ==> r == (GridPoint { x: 0, y: 0 }) && final(occupied)@ == old(occupied)@,
{
    let mut attempt: u32 = 0;
    while attempt < 10
        invariant
            occupied@.len() == 2500,
            *occupied == *old(occupied),
        decreases 10 - attempt,
    {
        let x: i32 = (rng.next() % 50) as i32;
        let y: i32 = (rng.next() % 50) as i32;
        if v2_cell_free(occupied, x, y) {
            assert(0 <= y * 50 + x < 2500) by (nonlinear_arith) requires 0 <= x < 50, 0 <= y < 50;
            occupied.set((y * 50 + x) as usize, true);
            return GridPoint { x, y };
        }
        attempt = attempt + 1;
    }
    let mut y: i32 = 0;
    while y < V2_MAP_SIZE
        invariant
            occupied@.len() == 2500,
            *occupied == *old(occupied),
            0 <= y <= 50,
            forall|a: int, b: int| 0 <= a < 50 && 0 <= b < y ==> !#[trigger] v2_free(occupied@, a, b),
        decreases 50 - y,
    {
        let mut x: i32 = 0;
        while x < V2_MAP_SIZE
            invariant
                occupied@.len() == 2500,
                *occupied == *old(occupied),
                0 <= y < 50,
                0 <= x <= 50,
                forall|a: int, b: int| 0 <= a < 50 && 0 <= b < y ==> !#[trigger] v2_free(occupied@, a, b),
                forall|a: int| 0 <= a < x ==> !#[trigger] v2_free(occupied@, a, y as int),
            decreases 50 - x,
        {
            if v2_cell_free(occupied, x, y) {
                assert(0 <= y * 50 + x < 2500) by (nonlinear_arith) requires 0 <= x < 50, 0 <= y < 50;
                occupied.set((y * 50 + x) as usize, true);
                return GridPoint { x, y };
            }
            x = x + 1;
        }
        y = y + 1;
    }
    assert(!v2_any_free(old(occupied)@));
    GridPoint { x: 0, y: 0 }
}

/// A 50x50 world whose layout places every deposit, factory, hauler and
/// generator it defines.
pub open spec fn laid_out_50x50(s: ScenarioDefinition) -> bool {
    &&& s.layout.width == 50
    &&& s.layout.height == 50
    &&& s.sources@.len() == s.layout.source_positions@.len()
    &&& s.factories@.len() == s.layout.factory_positions@.len()
    &&& s.hauler_count == s.layout.hauler_positions@.len()
    &&& (match s.power { Some(p) => p.generators@.len(), None => 0 }) == s.layout.generator_positions@.len()
}

/// The ore of the `k`th generated deposit of the 50x50 world: a block each
/// of iron, copper and coal.
pub open spec fn v2_ore(k: int) -> ItemId {
    if k < 141 { IRON_ORE } else if k < 282 { COPPER_ORE } else { COAL }
}

/// What the 50x50 world is made of: 423 seeded deposits of iron, copper
/// and coal inside the map, then a stone quarry; fifteen factories and
/// fifteen haulers, one coal plant at the centre.
pub open spec fn v2_world_shape(r: ScenarioDefinition) -> bool {
    &&& r.id == V2_WORLD_SCENARIO
    &&& r.layout.width == 50 && r.layout.height == 50
    &&& r.sources@.len() == 424
    &&& r.layout.source_positions@.len() == 424
    &&& forall|k: int| 0 <= k < 423 ==> {
        &&& (#[trigger] r.sources@[k]).item == v2_ore(k)
        &&& r.sources@[k].requires_deployment
        &&& r.sources@[k].mining_speed == 20
        &&& 2_000 <= r.sources@[k].deposit <= 5_980
        &&& 0 <= r.layout.source_positions@[k].x < 50
        &&& 0 <= r.layout.source_positions@[k].y < 50
    }
    &&& r.sources@[423] == (SourceSpec { item: STONE, deposit: 0, mining_speed: 20, requires_deployment: false })
    &&& r.layout.source_positions@[423] == (GridPoint { x: 31, y: 25 })
    &&& r.factories@.len() == 15
    &&& r.layout.factory_positions@.len() == 15
    &&& r.hauler_count == 15
    &&& r.layout.hauler_positions@.len() == 15
    &&& r.radars@.len() == 4
    &&& r.layout.generator_positions@.len() == 1
    &&& r.layout.generator_positions@[0] == (GridPoint { x: 27, y: 27 })
    &&& laid_out_50x50(r)
}

/// The 50x50 world: 141 seeded deposits each of iron, copper and coal
/// ore, placed inside the map and waiting for drills, then a stone quarry;
/// fifteen factories and fifteen haulers.
fn v2_world_scenario() -> (r: ScenarioDefinition)
    ensures
        r.id == V2_WORLD_SCENARIO,
        r.layout.width == 50 && r.layout.height == 50,
        r.sources@.len() == 424,
        r.layout.source_positions@.len() == 424,
        forall|k: int| 0 <= k < 423 ==> {
            &&& (#[trigger] r.sources@[k]).item == v2_ore(k)
            &&& r.sources@[k].requires_deployment
            &&& r.sources@[k].mining_speed == 20
            &&& 2_000 <= r.sources@[k].deposit <= 5_980
            &&& 0 <= r.layout.source_positions@[k].x < 50
            &&& 0 <= r.layout.source_positions@[k].y < 50
        },
        r.sources@[423] == (SourceSpec { item: STONE, deposit: 0, mining_speed: 20, requires_deployment: false }),
        r.factories@.len() == 15,
        r.layout.factory_positions@.len() == 15,
        r.hauler_count == 15,
        r.layout.hauler_positions@.len() == 15,
        r.radars@.len() == 4,
        laid_out_50x50(r),
        v2_world_shape(r),
{
    let mut rng = V2WorldRng::new(V2_RANDOM_SEED);
    let mut occupied: Vec<bool> = vec![false; 2500];
    let mut sources: Vec<SourceSpec> = Vec::new();
    let mut source_positions: Vec<GridPoint> = Vec::new();
    let ore_items: Vec<ItemId> = vec![IRON_ORE, COPPER_ORE, COAL];
    let mut k: usize = 0;
    while k < 3
        invariant
            occupied@.len() == 2500,
            ore_items@ == seq![IRON_ORE, COPPER_ORE, COAL],
            k <= 3,
            sources@.len() == k * 141,
            source_positions@.len() == k * 141,
            forall|j: int| 0 <= j < k * 141 ==> {
                &&& (#[trigger] sources@[j]).item == v2_ore(j)
                &&& sources@[j].requires_deployment
                &&& sources@[j].mining_speed == 20
                &&& 2_000 <= sources@[j].deposit <= 5_980
                &&& 0 <= source_positions@[j].x < 50
                &&& 0 <= source_positions@[j].y < 50
            },
        decreases 3 - k,
    {
        let item = ore_items[k];
        proof {
            if k == 0 {
                assert(item == IRON_ORE);
            } else if k == 1 {
                assert(item == COPPER_ORE);
            } else {
                assert(item == COAL);
            }
        }
        let mut n: usize = 0;
        while n < V2_ORE_PER_ITEM
            invariant
                occupied@.len() == 2500,
                k < 3,
                item == v2_ore(k * 141),
                n <= 141,
                sources@.len() == k * 141 + n,
                source_positions@.len() == k * 141 + n,
                forall|j: int| 0 <= j < k * 141 + n ==> {
                    &&& (#[trigger] sources@[j]).item == v2_ore(j)
                    &&& sources@[j].requires_deployment
                    &&& sources@[j].mining_speed == 20
                    &&& 2_000 <= sources@[j].deposit <= 5_980
                    &&& 0 <= source_positions@[j].x < 50
                    &&& 0 <= source_positions@[j].y < 50
                },
            decreases V2_ORE_PER_ITEM - n,
        {
            assert(v2_ore(k * 141 + n) == item);
            source_positions.push(v2_ore_position(&mut rng, &mut occupied));
            let roll: u32 = rng.next() % 200;
            sources.push(SourceSpec {
                item,
                deposit: 2_000 + roll * 20,
                mining_speed: 20,
                requires_deployment: true,
            });
            n = n + 1;
        }
        k = k + 1;
    }
    source_positions.push(v2_position(6, 0));
    sources.push(SourceSpec { item: STONE, deposit: 0, mining_speed: 20, requires_deployment: false });
    let factories = vec![
        FactorySpec::new(IRON_BARS, 100, 100),
        FactorySpec::new(COPPER_BARS, 100, 100),
        FactorySpec::new(IRON_BARS, 100, 100),
        FactorySpec::new(COPPER_BARS, 100, 100),
        FactorySpec::new(IRON_BARS, 100, 100),
        FactorySpec::new(IRON_BARS, 100, 100),
        FactorySpec::new(COPPER_BARS, 100, 100),
        FactorySpec::new(MOTORS, 100, 20),
        FactorySpec::new(FRAMES, 100, 20),
        FactorySpec::new(MINING_DRILL, 100, 10).with_starting_items(vec![(MINING_DRILL, 10)]),
        FactorySpec::new(COAL_PLANT, 100, 1),
        FactorySpec::new(CIRCUITS, 100, 20),
        FactorySpec::new(FRAMES, 100, 20),
        FactorySpec::new(MOTORS, 100, 20),
        FactorySpec::new(BUILDING_MATERIALS, 100, 20),
    ];
    ScenarioDefinition {
        id: V2_WORLD_SCENARIO,
        name: text("V3 50x50 Factory World"),
        sources,
        factories,
        build_sites: Vec::new(),
        radars: vec![
            RadarSpec { deployment_item: MINING_DRILL, target_item: IRON_ORE, position: v2_position(0, 0) },
            RadarSpec { deployment_item: MINING_DRILL, target_item: COPPER_ORE, position: v2_position(0, 1) },
            RadarSpec { deployment_item: MINING_DRILL, target_item: COAL, position: v2_position(0, 2) },
            RadarSpec { deployment_item: COAL_PLANT, target_item: COAL, position: v2_position(0, 3) },
        ],
        hauler_count: 15,
        hauler_capacity: 500,
        hauler_weight_capacity: 500,
        hauler_volume_capacity: 500,
        power: Some(PowerSpec {
            generators: vec![GeneratorSpec::coal_plant(4_000)],
            mining_cost: 2,
            dispatch_cost: 1,
            production_cost: 2,
            object_batteries: ObjectBatterySpec {
                source_capacity: 1_000,
                factory_capacity: 1_000,
                hauler_capacity: 250,
                start_charged: true,
            },
        }),
        layout: LayoutSpec {
            width: V2_MAP_SIZE,
            height: V2_MAP_SIZE,
            source_positions,
            road_position: v2_position(0, 0),
            factory_positions: vec![
                v2_position(2, 0), v2_position(3, 0), v2_position(4, 0), v2_position(7, 2),
                v2_position(7, 1), v2_position(7, 3), v2_position(5, 0), v2_position(2, 1),
                v2_position(4, 1), v2_position(3, 2), v2_position(5, 2), v2_position(5, 1),
                v2_position(6, 2), v2_position(6, 3), v2_position(6, 1),
            ],
            generator_positions: vec![v2_position(2, 2)],
            hauler_positions: vec![
                v2_position(-1, 0), v2_position(-1, 1), v2_position(-1, 2), v2_position(1, 0),
                v2_position(1, 1), v2_position(1, 2), v2_position(1, 3), v2_position(2, 3),
                v2_position(3, 3), v2_position(4, 3), v2_position(7, 0), v2_position(7, 1),
                v2_position(7, 2), v2_position(7, 3), v2_position(7, 4),
            ],
            obstacles: Vec::new(),
        },
    }
}

/// Deposits of eight iron, eight copper and eight coal fields with a deposit of
/// 4000 each, then one stone quarry.
fn authored_sources(
    iron_field: &Vec<GridPoint>,
    copper_field: &Vec<GridPoint>,
    coal_field: &Vec<GridPoint>,
    stone_position: GridPoint,
    requires_deployment: bool,
) -> (r: (Vec<SourceSpec>, Vec<GridPoint>))
    ensures
        r.0@.len() == r.1@.len(),
        r.0@.len() == iron_field@.len() + copper_field@.len() + coal_field@.len() + 1,
{
    let mut sources: Vec<SourceSpec> = Vec::new();
    let mut positions: Vec<GridPoint> = Vec::new();
    let mut i: usize = 0;
    while i < iron_field.len()
        invariant
            i <= iron_field@.len(),
            sources@.len() == i,
            positions@.len() == i,
        decreases iron_field@.len() - i,
    {
        sources.push(SourceSpec { item: IRON_ORE, deposit: 4_000, mining_speed: 20, requires_deployment });
        positions.push(iron_field[i]);
        i = i + 1;
    }
    let mut i: usize = 0;
    while i < copper_field.len()
        invariant
            i <= copper_field@.len(),
            sources@.len() == iron_field@.len() + i,
            positions@.len() == iron_field@.len() + i,
        decreases copper_field@.len() - i,
    {
        sources.push(SourceSpec { item: COPPER_ORE, deposit: 4_000, mining_speed: 20, requires_deployment });
        positions.push(copper_field[i]);
        i = i + 1;
    }
    let mut i: usize = 0;
    while i < coal_field.len()
        invariant
            i <= coal_field@.len(),
            sources@.len() == iron_field@.len() + copper_field@.len() + i,
            positions@.len() == iron_field@.len() + copper_field@.len() + i,
        decreases coal_field@.len() - i,
    {
        sources.push(SourceSpec { item: COAL, deposit: 4_000, mining_speed: 20, requires_deployment });
        positions.push(coal_field[i]);
        i = i + 1;
    }
    sources.push(SourceSpec { item: STONE, deposit: 0, mining_speed: 20, requires_deployment: false });
    positions.push(stone_position);
    (sources, positions)
}

fn world_power(generators: Vec<GeneratorSpec>) -> (r: PowerSpec)
    ensures
        r.generators@ == generators@,
{
    PowerSpec {
        generators,
        mining_cost: 2,
        dispatch_cost: 1,
        production_cost: 2,
        object_batteries: ObjectBatterySpec {
            source_capacity: 1_000,
            factory_capacity: 1_000,
            hauler_capacity: 250,
            start_charged: true,
        },
    }
}

/// The shape of the iron-bars scenario that lets it run: one deposit, one
/// iron-bars factory without starting stock, one hauler, and no power.
pub open spec fn iron_bars_shape(s: ScenarioDefinition) -> bool {
    &&& s.id == IRON_BARS_SCENARIO
    &&& s.sources@.len() == 1
    &&& s.layout.source_positions@.len() == 1
    &&& s.factories@.len() == 1
    &&& s.layout.factory_positions@.len() == 1
    &&& s.factories@[0].product_item == IRON_BARS
    &&& s.factories@[0].starting_items@.len() == 0
    &&& s.hauler_count == 1
    &&& s.layout.hauler_positions@.len() == 0
    &&& s.power is None
    &&& s.layout.generator_positions@.len() == 0
    &&& s.radars@.len() == 0
    &&& s.build_sites@.len() == 0
}

fn iron_bars_scenario() -> (r: ScenarioDefinition)
    ensures
        r.id == IRON_BARS_SCENARIO,
        iron_bars_shape(r),
{
      ScenarioDefinition {
        id: IRON_BARS_SCENARIO,
        name: text("Iron Bars"),
        sources: vec![SourceSpec {
          item: IRON_ORE,
          deposit: 9,
          mining_speed: 3,
          requires_deployment: false,
        }],
        factories: vec![FactorySpec::new(IRON_BARS, 6, 20)],
        build_sites: Vec::new(),
        radars: Vec::new(),
        hauler_count: 1,
        hauler_capacity: 3,
        hauler_weight_capacity: 32,
        hauler_volume_capacity: 32,
        power: None,
        layout: LayoutSpec::linear(1, false),
      }
}

fn iron_bars_fleet_scenario() -> (r: ScenarioDefinition)
    ensures
        r.id == IRON_BARS_FLEET_SCENARIO,
{
      ScenarioDefinition {
        id: IRON_BARS_FLEET_SCENARIO,
        name: text("Iron Bars Fleet"),
        sources: vec![SourceSpec {
          item: IRON_ORE,
          deposit: 24,
          mining_speed: 6,
          requires_deployment: false,
        }],
        factories: vec![FactorySpec::new(IRON_BARS, 6, 20)],
        build_sites: Vec::new(),
        radars: Vec::new(),
        hauler_count: 3,
        hauler_capacity: 3,
        hauler_weight_capacity: 32,
        hauler_volume_capacity: 32,
        power: None,
        layout: LayoutSpec::linear(1, false),
      }
}

fn building_materials_scenario() -> (r: ScenarioDefinition)
    ensures
        r.id == BUILDING_MATERIALS_SCENARIO,
{
      ScenarioDefinition {
        id: BUILDING_MATERIALS_SCENARIO,
        name: text("Building Materials"),
        sources: vec![
          SourceSpec {
            item: IRON_BARS,
            deposit: 12,
            mining_speed: 2,
            requires_deployment: false,
          },
          SourceSpec {
            item: STONE,
            deposit: 0,
            mining_speed: 2,
            requires_deployment: false,
          },
        ],
        factories: vec![FactorySpec::new(BUILDING_MATERIALS, 4, 20)],
        build_sites: Vec::new(),
        radars: Vec::new(),
        hauler_count: 2,
        hauler_capacity: 2,
        hauler_weight_capacity: 32,
        hauler_volume_capacity: 32,
        power: None,
        layout: LayoutSpec::linear(2, false),
      }
}

fn powered_ironworks_scenario() -> (r: ScenarioDefinition)
    ensures
        r.id == POWERED_IRONWORKS_SCENARIO,
{
      ScenarioDefinition {
        id: POWERED_IRONWORKS_SCENARIO,
        name: text("Powered Ironworks"),
        sources: vec![
          SourceSpec {
            item: IRON_ORE,
            deposit: 30,
            mining_speed: 3,
            requires_deployment: false,
          },
          SourceSpec {
            item: COAL,
            deposit: 18,
            mining_speed: 2,
            requires_deployment: false,
          },
        ],
        factories: vec![FactorySpec::new(IRON_BARS, 6, 20)],
        build_sites: Vec::new(),
        radars: Vec::new(),
        hauler_count: 2,
        hauler_capacity: 3,
        hauler_weight_capacity: 32,
        hauler_volume_capacity: 32,
        power: Some(PowerSpec {
          generators: vec![GeneratorSpec {
            item: None,
            fuel_item: Some(COAL),
            initial_fuel: 8,
            fuel_buffer: 20,
            burn_rate: 4,
            gain_rate: 160,
            grid_capacity: 10_000,
          }],
          mining_cost: 1,
          dispatch_cost: 1,
          production_cost: 2,
          object_batteries: ObjectBatterySpec::default(),
        }),
        layout: LayoutSpec::linear(2, true),
      }
}

fn deployment_demo_scenario() -> (r: ScenarioDefinition)
    ensures
        r.id == DEPLOYMENT_DEMO_SCENARIO,
{
      ScenarioDefinition {
        id: DEPLOYMENT_DEMO_SCENARIO,
        name: text("Drill Deployment"),
        sources: vec![SourceSpec {
          item: IRON_ORE,
          deposit: 18,
          mining_speed: 3,
          requires_deployment: true,
        }],
        factories: vec![FactorySpec::new(IRON_BARS, 6, 100)
          .with_starting_items(vec![(MINING_DRILL, 1)])],
        build_sites: Vec::new(),
        radars: vec![RadarSpec {
          deployment_item: MINING_DRILL,
          target_item: IRON_ORE,
          position: GridPoint { x: 1, y: 1 },
        }],
        hauler_count: 1,
        hauler_capacity: 3,
        hauler_weight_capacity: 100,
        hauler_volume_capacity: 100,
        power: None,
        layout: LayoutSpec::linear(1, false),
      }
}

fn pathfinding_demo_scenario() -> (r: ScenarioDefinition)
    ensures
        r.id == PATHFINDING_DEMO_SCENARIO,
{
      ScenarioDefinition {
        id: PATHFINDING_DEMO_SCENARIO,
        name: text("Obstacle Convoy"),
        sources: vec![SourceSpec {
          item: IRON_ORE,
          deposit: 30,
          mining_speed: 6,
          requires_deployment: false,
        }],
        factories: vec![FactorySpec::new(IRON_BARS, 6, 20)],
        build_sites: Vec::new(),
        radars: Vec::new(),
        hauler_count: 2,
        hauler_capacity: 3,
        hauler_weight_capacity: 32,
        hauler_volume_capacity: 32,
        power: None,
        layout: LayoutSpec {
          width: 4,
          height: 3,
          source_positions: vec![GridPoint { x: 0, y: 1 }],
          road_position: GridPoint { x: 1, y: 0 },
          factory_positions: vec![GridPoint { x: 3, y: 1 }],
          generator_positions: Vec::new(),
          hauler_positions: Vec::new(),
          obstacles: vec![GridPoint { x: 1, y: 1 }],
        },
      }
}

fn production_chain_scenario() -> (r: ScenarioDefinition)
    ensures
        r.id == PRODUCTION_CHAIN_SCENARIO,
{
      ScenarioDefinition {
        id: PRODUCTION_CHAIN_SCENARIO,
        name: text("Drill Production Chain"),
        sources: vec![
          SourceSpec {
            item: IRON_ORE,
            deposit: 180,
            mining_speed: 12,
            requires_deployment: false,
          },
          SourceSpec {
            item: COPPER_ORE,
            deposit: 90,
            mining_speed: 8,
            requires_deployment: false,
          },
        ],
        factories: vec![
          FactorySpec::new(IRON_BARS, 30, 100),
          FactorySpec::new(COPPER_BARS, 30, 100),
          FactorySpec::new(FRAMES, 40, 20),
          FactorySpec::new(MOTORS, 40, 20),
          FactorySpec::new(MINING_DRILL, 20, 5),
        ],
        build_sites: Vec::new(),
        radars: Vec::new(),
        hauler_count: 0,
        hauler_capacity: 5,
        hauler_weight_capacity: 100,
        hauler_volume_capacity: 100,
        power: None,
        layout: LayoutSpec {
          width: 4,
          height: 4,
          source_positions: vec![GridPoint { x: 0, y: 1 }, GridPoint { x: 0, y: 3 }],
          road_position: GridPoint { x: 3, y: 3 },
          factory_positions: vec![
            GridPoint { x: 1, y: 1 },
            GridPoint { x: 1, y: 3 },
            GridPoint { x: 2, y: 1 },
            GridPoint { x: 2, y: 2 },
            GridPoint { x: 3, y: 1 },
          ],
          generator_positions: Vec::new(),
          hauler_positions: Vec::new(),
          obstacles: Vec::new(),
        },
      }
}

fn distributed_chain_scenario() -> (r: ScenarioDefinition)
    ensures
        r.id == DISTRIBUTED_CHAIN_SCENARIO,
{
      ScenarioDefinition {
        id: DISTRIBUTED_CHAIN_SCENARIO,
        name: text("Distributed Frame Line"),
        sources: vec![SourceSpec {
          item: IRON_ORE,
          deposit: 48,
          mining_speed: 6,
          requires_deployment: false,
        }],
        factories: vec![
          FactorySpec::new(IRON_BARS, 18, 100),
          FactorySpec::new(FRAMES, 20, 10),
        ],
        build_sites: Vec::new(),
        radars: Vec::new(),
        hauler_count: 2,
        hauler_capacity: 5,
        hauler_weight_capacity: 100,
        hauler_volume_capacity: 100,
        power: None,
        layout: LayoutSpec {
          width: 5,
          height: 3,
          source_positions: vec![GridPoint { x: 0, y: 1 }],
          road_position: GridPoint { x: 1, y: 1 },
          factory_positions: vec![GridPoint { x: 2, y: 0 }, GridPoint { x: 4, y: 1 }],
          generator_positions: Vec::new(),
          hauler_positions: Vec::new(),
          obstacles: Vec::new(),
        },
      }
}

fn power_line_scenario() -> (r: ScenarioDefinition)
    ensures
        r.id == POWER_LINE_SCENARIO,
{
      ScenarioDefinition {
        id: POWER_LINE_SCENARIO,
        name: text("Automatic Grid Link"),
        sources: vec![SourceSpec {
          item: IRON_ORE,
          deposit: 36,
          mining_speed: 3,
          requires_deployment: false,
        }],
        factories: vec![FactorySpec::new(IRON_BARS, 12, 40)],
        build_sites: Vec::new(),
        radars: Vec::new(),
        hauler_count: 1,
        hauler_capacity: 3,
        hauler_weight_capacity: 32,
        hauler_volume_capacity: 32,
        power: Some(PowerSpec {
          generators: vec![GeneratorSpec {
            item: None,
            fuel_item: Some(COAL),
            initial_fuel: 40,
            fuel_buffer: 40,
            burn_rate: 4,
            gain_rate: 160,
            grid_capacity: 10_000,
          }],
          mining_cost: 1,
          dispatch_cost: 1,
          production_cost: 2,
          object_batteries: ObjectBatterySpec::default(),
        }),
        layout: LayoutSpec {
          width: 5,
          height: 3,
          source_positions: vec![GridPoint { x: 4, y: 2 }],
          road_position: GridPoint { x: 4, y: 0 },
          factory_positions: vec![GridPoint { x: 4, y: 1 }],
          generator_positions: vec![GridPoint { x: 0, y: 1 }],
          hauler_positions: Vec::new(),
          obstacles: Vec::new(),
        },
      }
}

/// The warehouse construction yard: one iron-bars factory holding a
/// storage warehouse, a build site for it two cells east of the road, and one
/// hauler, on a 5x3 grid without deposits or power.
fn building_deployment_scenario() -> (r: ScenarioDefinition)
    ensures
        r.id == BUILDING_DEPLOYMENT_SCENARIO,
        r.name@ == "Warehouse Construction"@,
        r.sources@.len() == 0,
        r.factories@.len() == 1,
        r.factories@[0].product_item == IRON_BARS,
        r.factories@[0].input_buffer == 6,
        r.factories@[0].output_buffer == 20,
        r.factories@[0].starting_items@ == seq![(STORAGE_WAREHOUSE, 1u32)],
        r.build_sites@ == seq![BuildSiteSpec { item: STORAGE_WAREHOUSE, position: GridPoint { x: 4, y: 1 } }],
        r.radars@.len() == 0,
        r.hauler_count == 1,
        r.hauler_capacity == 1,
        r.hauler_weight_capacity == 500,
        r.hauler_volume_capacity == 250,
        r.power is None,
        r.layout.width == 5 && r.layout.height == 3,
        r.layout.source_positions@.len() == 0,
        r.layout.road_position == (GridPoint { x: 1, y: 1 }),
        r.layout.factory_positions@ == seq![GridPoint { x: 0, y: 1 }],
        r.layout.generator_positions@.len() == 0,
        r.layout.hauler_positions@.len() == 0,
        r.layout.obstacles@.len() == 0,
{
      ScenarioDefinition {
        id: BUILDING_DEPLOYMENT_SCENARIO,
        name: text("Warehouse Construction"),
        sources: Vec::new(),
        factories: vec![FactorySpec::new(IRON_BARS, 6, 20)
          .with_starting_items(vec![(STORAGE_WAREHOUSE, 1)])],
        build_sites: vec![BuildSiteSpec {
          item: STORAGE_WAREHOUSE,
          position: GridPoint { x: 4, y: 1 },
        }],
        radars: Vec::new(),
        hauler_count: 1,
        hauler_capacity: 1,
        hauler_weight_capacity: 500,
        hauler_volume_capacity: 250,
        power: None,
        layout: LayoutSpec {
          width: 5,
          height: 3,
          source_positions: Vec::new(),
          road_position: GridPoint { x: 1, y: 1 },
          factory_positions: vec![GridPoint { x: 0, y: 1 }],
          generator_positions: Vec::new(),
          hauler_positions: Vec::new(),
          obstacles: Vec::new(),
        },
      }
}

fn hybrid_grid_scenario() -> (r: ScenarioDefinition)
    ensures
        r.id == HYBRID_GRID_SCENARIO,
{
      ScenarioDefinition {
        id: HYBRID_GRID_SCENARIO,
        name: text("Hybrid Generator Grid"),
        sources: vec![
          SourceSpec {
            item: IRON_ORE,
            deposit: 30,
            mining_speed: 3,
            requires_deployment: false,
          },
          SourceSpec {
            item: COAL,
            deposit: 18,
            mining_speed: 2,
            requires_deployment: false,
          },
        ],
        factories: vec![FactorySpec::new(IRON_BARS, 6, 20)],
        build_sites: Vec::new(),
        radars: Vec::new(),
        hauler_count: 2,
        hauler_capacity: 3,
        hauler_weight_capacity: 32,
        hauler_volume_capacity: 32,
        power: Some(PowerSpec {
          generators: vec![
            GeneratorSpec {
              item: None,
              fuel_item: Some(COAL),
              initial_fuel: 4,
              fuel_buffer: 20,
              burn_rate: 2,
              gain_rate: 80,
              grid_capacity: 1_000,
            },
            GeneratorSpec {
              item: None,
              fuel_item: None,
              initial_fuel: 0,
              fuel_buffer: 0,
              burn_rate: 0,
              gain_rate: 40,
              grid_capacity: 1_000,
            },
          ],
          mining_cost: 1,
          dispatch_cost: 1,
          production_cost: 2,
          object_batteries: ObjectBatterySpec::default(),
        }),
        layout: LayoutSpec {
          width: 4,
          height: 3,
          source_positions: vec![GridPoint { x: 0, y: 0 }, GridPoint { x: 0, y: 2 }],
          road_position: GridPoint { x: 1, y: 0 },
          factory_positions: vec![GridPoint { x: 3, y: 0 }],
          generator_positions: vec![GridPoint { x: 1, y: 1 }, GridPoint { x: 2, y: 1 }],
          hauler_positions: Vec::new(),
          obstacles: Vec::new(),
        },
      }
}

fn legacy_assembly_yard_scenario() -> (r: ScenarioDefinition)
    ensures
        r.id == LEGACY_ASSEMBLY_YARD_SCENARIO,
        laid_out_50x50(r),
{
  let iron_field: Vec<GridPoint> = vec![
    GridPoint { x: 4, y: 7 },
    GridPoint { x: 7, y: 7 },
    GridPoint { x: 10, y: 7 },
    GridPoint { x: 13, y: 7 },
    GridPoint { x: 4, y: 11 },
    GridPoint { x: 7, y: 11 },
    GridPoint { x: 10, y: 11 },
    GridPoint { x: 13, y: 11 },
  ];
  let copper_field: Vec<GridPoint> = vec![
    GridPoint { x: 36, y: 7 },
    GridPoint { x: 39, y: 7 },
    GridPoint { x: 42, y: 7 },
    GridPoint { x: 45, y: 7 },
    GridPoint { x: 36, y: 11 },
    GridPoint { x: 39, y: 11 },
    GridPoint { x: 42, y: 11 },
    GridPoint { x: 45, y: 11 },
  ];
  let coal_field: Vec<GridPoint> = vec![
    GridPoint { x: 13, y: 40 },
    GridPoint { x: 16, y: 40 },
    GridPoint { x: 19, y: 40 },
    GridPoint { x: 22, y: 40 },
    GridPoint { x: 25, y: 40 },
    GridPoint { x: 28, y: 40 },
    GridPoint { x: 31, y: 40 },
    GridPoint { x: 34, y: 40 },
  ];
  let (sources, source_positions) = authored_sources(&iron_field, &copper_field, &coal_field,
    v2_position(1, 0),
    false,
  );
  ScenarioDefinition {
    id: LEGACY_ASSEMBLY_YARD_SCENARIO,
    name: text("Legacy Assembly Yard"),
    sources,
    factories: vec![
      FactorySpec::new(IRON_BARS, 100, 100),
      FactorySpec::new(COPPER_BARS, 100, 100),
      FactorySpec::new(IRON_BARS, 100, 100),
      FactorySpec::new(BUILDING_MATERIALS, 100, 20),
      FactorySpec::new(MOTORS, 100, 20),
      FactorySpec::new(CIRCUITS, 100, 20),
      FactorySpec::new(FRAMES, 100, 20),
      FactorySpec::new(COAL_PLANT, 100, 1),
      FactorySpec::new(FACTORY_BUILDING, 100, 1),
      FactorySpec::new(MINING_DRILL, 100, 10),
    ],
    build_sites: Vec::new(),
    radars: Vec::new(),
    hauler_count: 8,
    hauler_capacity: 500,
    hauler_weight_capacity: 500,
    hauler_volume_capacity: 500,
    power: Some(world_power(vec![GeneratorSpec::coal_plant(4_000)])),
    layout: LayoutSpec {
      width: V2_MAP_SIZE,
      height: V2_MAP_SIZE,
      source_positions,
      road_position: v2_position(0, 0),
      factory_positions: vec![
        v2_position(2, 0),
        v2_position(3, 0),
        v2_position(4, 0),
        v2_position(1, 1),
        v2_position(2, 1),
        v2_position(3, 1),
        v2_position(4, 1),
        v2_position(1, 2),
        v2_position(2, 2),
        v2_position(3, 2),
      ],
      generator_positions: vec![v2_position(0, 0)],
      hauler_positions: vec![
        v2_position(-1, 0),
        v2_position(-1, 1),
        v2_position(-1, 2),
        v2_position(-1, 3),
        v2_position(5, 0),
        v2_position(5, 1),
        v2_position(5, 2),
        v2_position(5, 3),
      ],
      obstacles: Vec::new(),
    },
  }
}

fn twin_plant_basin_scenario() -> (r: ScenarioDefinition)
    ensures
        r.id == TWIN_PLANT_BASIN_SCENARIO,
        laid_out_50x50(r),
        r.sources@.len() == 25,
        r.factories@.len() == 6,
        r.factories@[0].product_item == IRON_BARS,
        r.factories@[1].product_item == COPPER_BARS,
        r.factories@[2].product_item == IRON_BARS,
        r.factories@[3].product_item == MOTORS,
        r.factories@[4].product_item == FRAMES,
        r.factories@[5].product_item == MINING_DRILL,
        r.hauler_count == 12,
        r.radars@.len() == 3,
        r.power matches Some(p) && p.generators@.len() == 2,
        r.layout.generator_positions@ == seq![GridPoint { x: 27, y: 27 }, GridPoint { x: 29, y: 27 }],
{
  let iron_field: Vec<GridPoint> = vec![
    GridPoint { x: 5, y: 5 },
    GridPoint { x: 8, y: 5 },
    GridPoint { x: 5, y: 8 },
    GridPoint { x: 8, y: 8 },
    GridPoint { x: 11, y: 8 },
    GridPoint { x: 8, y: 11 },
    GridPoint { x: 11, y: 11 },
    GridPoint { x: 14, y: 11 },
  ];
  let copper_field: Vec<GridPoint> = vec![
    GridPoint { x: 35, y: 5 },
    GridPoint { x: 38, y: 5 },
    GridPoint { x: 41, y: 5 },
    GridPoint { x: 35, y: 8 },
    GridPoint { x: 38, y: 8 },
    GridPoint { x: 41, y: 8 },
    GridPoint { x: 38, y: 11 },
    GridPoint { x: 41, y: 11 },
  ];
  let coal_field: Vec<GridPoint> = vec![
    GridPoint { x: 7, y: 37 },
    GridPoint { x: 10, y: 40 },
    GridPoint { x: 13, y: 43 },
    GridPoint { x: 16, y: 40 },
    GridPoint { x: 33, y: 40 },
    GridPoint { x: 36, y: 43 },
    GridPoint { x: 39, y: 40 },
    GridPoint { x: 42, y: 37 },
  ];
  let (sources, source_positions) = authored_sources(&iron_field, &copper_field, &coal_field,
    v2_position(6, 0),
    true,
  );
  ScenarioDefinition {
    id: TWIN_PLANT_BASIN_SCENARIO,
    name: text("Twin Plant Basin"),
    sources,
    factories: vec![
      FactorySpec::new(IRON_BARS, 100, 100),
      FactorySpec::new(COPPER_BARS, 100, 100),
      FactorySpec::new(IRON_BARS, 100, 100),
      FactorySpec::new(MOTORS, 100, 20),
      FactorySpec::new(FRAMES, 100, 20),
      FactorySpec::new(MINING_DRILL, 100, 10)
        .with_starting_items(vec![(MINING_DRILL, 10)]),
    ],
    build_sites: Vec::new(),
    radars: vec![
      RadarSpec {
        deployment_item: MINING_DRILL,
        target_item: IRON_ORE,
        position: v2_position(0, 0),
      },
      RadarSpec {
        deployment_item: MINING_DRILL,
        target_item: COPPER_ORE,
        position: v2_position(0, 1),
      },
      RadarSpec {
        deployment_item: MINING_DRILL,
        target_item: COAL,
        position: v2_position(0, 2),
      },
    ],
    hauler_count: 12,
    hauler_capacity: 500,
    hauler_weight_capacity: 500,
    hauler_volume_capacity: 500,
    power: Some(world_power(vec![
      GeneratorSpec::coal_plant(4_000),
      GeneratorSpec::coal_plant(4_000),
    ])),
    layout: LayoutSpec {
      width: V2_MAP_SIZE,
      height: V2_MAP_SIZE,
      source_positions,
      road_position: v2_position(0, 0),
      factory_positions: vec![
        v2_position(2, 0),
        v2_position(3, 0),
        v2_position(4, 0),
        v2_position(2, 1),
        v2_position(4, 1),
        v2_position(3, 2),
      ],
      generator_positions: vec![v2_position(2, 2), v2_position(4, 2)],
      hauler_positions: vec![
        v2_position(1, 0),
        v2_position(1, 1),
        v2_position(1, 2),
        v2_position(1, 3),
        v2_position(2, 3),
        v2_position(3, 3),
        v2_position(4, 3),
        v2_position(5, 0),
        v2_position(5, 1),
        v2_position(5, 2),
        v2_position(5, 3),
        v2_position(5, 4),
      ],
      obstacles: Vec::new(),
    },
  }
}

fn four_corners_works_scenario() -> (r: ScenarioDefinition)
    ensures
        r.id == FOUR_CORNERS_WORKS_SCENARIO,
        laid_out_50x50(r),
        r.sources@.len() == 25,
        r.factories@.len() == 12,
        r.factories@[0].product_item == IRON_BARS,
        r.factories@[1].product_item == IRON_BARS,
        r.factories@[2].product_item == IRON_BARS,
        r.factories@[3].product_item == COPPER_BARS,
        r.factories@[4].product_item == COPPER_BARS,
        r.factories@[5].product_item == COPPER_BARS,
        r.factories@[6].product_item == MOTORS,
        r.factories@[7].product_item == CIRCUITS,
        r.factories@[8].product_item == FRAMES,
        r.factories@[9].product_item == BUILDING_MATERIALS,
        r.factories@[10].product_item == MINING_DRILL,
        r.factories@[11].product_item == COAL_PLANT,
        r.hauler_count == 16,
        r.radars@.len() == 4,
        r.power matches Some(p) && p.generators@.len() == 2,
        r.layout.generator_positions@ == seq![GridPoint { x: 24, y: 25 }, GridPoint { x: 26, y: 25 }],
{
  let iron_field: Vec<GridPoint> = vec![
    GridPoint { x: 5, y: 5 },
    GridPoint { x: 9, y: 5 },
    GridPoint { x: 5, y: 9 },
    GridPoint { x: 9, y: 9 },
    GridPoint { x: 5, y: 40 },
    GridPoint { x: 9, y: 40 },
    GridPoint { x: 5, y: 44 },
    GridPoint { x: 9, y: 44 },
  ];
  let copper_field: Vec<GridPoint> = vec![
    GridPoint { x: 40, y: 5 },
    GridPoint { x: 44, y: 5 },
    GridPoint { x: 40, y: 9 },
    GridPoint { x: 44, y: 9 },
    GridPoint { x: 40, y: 40 },
    GridPoint { x: 44, y: 40 },
    GridPoint { x: 40, y: 44 },
    GridPoint { x: 44, y: 44 },
  ];
  let coal_field: Vec<GridPoint> = vec![
    GridPoint { x: 20, y: 5 },
    GridPoint { x: 24, y: 5 },
    GridPoint { x: 28, y: 5 },
    GridPoint { x: 32, y: 5 },
    GridPoint { x: 20, y: 44 },
    GridPoint { x: 24, y: 44 },
    GridPoint { x: 28, y: 44 },
    GridPoint { x: 32, y: 44 },
  ];
  let (sources, source_positions) = authored_sources(&iron_field, &copper_field, &coal_field,
    v2_position(0, 8),
    true,
  );
  ScenarioDefinition {
    id: FOUR_CORNERS_WORKS_SCENARIO,
    name: text("Four Corners Works"),
    sources,
    factories: vec![
      FactorySpec::new(IRON_BARS, 100, 100),
      FactorySpec::new(IRON_BARS, 100, 100),
      FactorySpec::new(IRON_BARS, 100, 100),
      FactorySpec::new(COPPER_BARS, 100, 100),
      FactorySpec::new(COPPER_BARS, 100, 100),
      FactorySpec::new(COPPER_BARS, 100, 100),
      FactorySpec::new(MOTORS, 100, 20),
      FactorySpec::new(CIRCUITS, 100, 20),
      FactorySpec::new(FRAMES, 100, 20),
      FactorySpec::new(BUILDING_MATERIALS, 100, 20),
      FactorySpec::new(MINING_DRILL, 100, 12)
        .with_starting_items(vec![(MINING_DRILL, 12)]),
      FactorySpec::new(COAL_PLANT, 100, 1),
    ],
    build_sites: Vec::new(),
    radars: vec![
      RadarSpec {
        deployment_item: MINING_DRILL,
        target_item: IRON_ORE,
        position: v2_position(0, -1),
      },
      RadarSpec {
        deployment_item: MINING_DRILL,
        target_item: COPPER_ORE,
        position: v2_position(0, 0),
      },
      RadarSpec {
        deployment_item: MINING_DRILL,
        target_item: COAL,
        position: v2_position(0, 1),
      },
      RadarSpec {
        deployment_item: COAL_PLANT,
        target_item: COAL,
        position: v2_position(0, 2),
      },
    ],
    hauler_count: 16,
    hauler_capacity: 500,
    hauler_weight_capacity: 500,
    hauler_volume_capacity: 500,
    power: Some(world_power(vec![
      GeneratorSpec::coal_plant(4_000),
      GeneratorSpec::coal_plant(4_000),
    ])),
    layout: LayoutSpec {
      width: V2_MAP_SIZE,
      height: V2_MAP_SIZE,
      source_positions,
      road_position: v2_position(0, 0),
      factory_positions: vec![
        v2_position(-5, -3),
        v2_position(-5, 0),
        v2_position(-5, 3),
        v2_position(5, -3),
        v2_position(5, 0),
        v2_position(5, 3),
        v2_position(-2, -5),
        v2_position(2, -5),
        v2_position(-2, 5),
        v2_position(2, 5),
        v2_position(0, 7),
        v2_position(0, -7),
      ],
      generator_positions: vec![v2_position(-1, 0), v2_position(1, 0)],
      hauler_positions: vec![
        v2_position(-3, -2),
        v2_position(-3, -1),
        v2_position(-3, 0),
        v2_position(-3, 1),
        v2_position(-3, 2),
        v2_position(3, -2),
        v2_position(3, -1),
        v2_position(3, 0),
        v2_position(3, 1),
        v2_position(3, 2),
        v2_position(-2, -3),
        v2_position(-1, -3),
        v2_position(0, -3),
        v2_position(1, -3),
        v2_position(2, -3),
        v2_position(0, 3),
      ],
      obstacles: Vec::new(),
    },
  }
}

/// Whether a catalog entry has the given physical values, timing, recipe
/// and flags.
pub open spec fn row_is(
    d: ItemDefinition,
    weight: u32,
    volume: u32,
    stack_size: u32,
    craft_time: u32,
    craft_output: u32,
    ingredients: Seq<(ItemId, u32)>,
    can_spawn_game_object: bool,
    create_from_nothing: bool,
) -> bool {
    &&& d.weight == weight
    &&& d.volume == volume
    &&& d.stack_size == stack_size
    &&& d.craft_time == craft_time
    &&& d.craft_output == craft_output
    &&& d.ingredients@ == ingredients
    &&& d.can_spawn_game_object == can_spawn_game_object
    &&& d.create_from_nothing == create_from_nothing
}

/// The starter catalog's entry for an item: weight, volume, stack size,
/// craft time, units per craft, recipe, and whether it spawns a world object
/// or comes from nothing.
pub open spec fn starter_definition(d: ItemDefinition) -> bool {
    match d.id {
        ItemId::BuildingMaterials => d.name@ == "Building Materials"@
            && row_is(d, 20, 5, 20, 5, 1, seq![(IRON_BARS, 4u32), (STONE, 4u32)], false, false),
        ItemId::Circuits => d.name@ == "Circuits"@ && row_is(d, 1, 1, 20, 5, 1, seq![(COPPER_BARS, 1u32)], false, false),
        ItemId::Coal => d.name@ == "Coal"@ && row_is(d, 1, 1, 100, 1, 1, Seq::empty(), false, false),
        ItemId::CoalPlant => d.name@ == "Coal Plant"@ && row_is(d, 400, 200, 1, 40, 1,
            seq![(BUILDING_MATERIALS, 10u32), (CIRCUITS, 16u32), (FRAMES, 20u32), (MOTORS, 8u32)], true, false),
        ItemId::CopperBars => d.name@ == "Copper Bars"@ && row_is(d, 1, 1, 100, 1, 10, seq![(COPPER_ORE, 3u32)], false, false),
        ItemId::CopperOre => d.name@ == "Copper Ore"@ && row_is(d, 1, 1, 100, 1, 1, Seq::empty(), false, false),
        ItemId::FactoryBuilding => d.name@ == "Factory"@ && row_is(d, 400, 200, 1, 40, 1,
            seq![(BUILDING_MATERIALS, 10u32), (CIRCUITS, 16u32), (FRAMES, 20u32), (MOTORS, 16u32)], true, false),
        ItemId::Frames => d.name@ == "Frames"@ && row_is(d, 10, 10, 20, 5, 1, seq![(IRON_BARS, 4u32)], false, false),
        ItemId::IronBars => d.name@ == "Iron Bars"@ && row_is(d, 1, 1, 100, 1, 10, seq![(IRON_ORE, 3u32)], false, false),
        ItemId::IronOre => d.name@ == "Iron Ore"@ && row_is(d, 1, 1, 100, 1, 1, Seq::empty(), false, false),
        ItemId::MiningDrill => d.name@ == "Mining Drill"@ && row_is(d, 50, 1, 1, 5, 1,
            seq![(FRAMES, 4u32), (MOTORS, 1u32)], true, false),
        ItemId::Motors => d.name@ == "Motors"@ && row_is(d, 1, 1, 20, 5, 1, seq![(COPPER_BARS, 2u32), (IRON_BARS, 2u32)], false, false),
        ItemId::Stone => d.name@ == "Stone"@ && row_is(d, 1, 1, 100, 1, 1, Seq::empty(), false, true),
        ItemId::StorageWarehouse => d.name@ == "Storage Warehouse"@ && row_is(d, 400, 200, 1, 40, 1,
            seq![(BUILDING_MATERIALS, 20u32), (FRAMES, 20u32)], true, false),
    }
}

/// The starter catalog, in catalog order.
fn starter_items() -> (r: Vec<ItemDefinition>)
    ensures
        r@.len() == ITEM_COUNT,
        forall|k: int| 0 <= k < ITEM_COUNT ==> item_rank(#[trigger] r@[k].id) == k,
        forall|k: int| 0 <= k < ITEM_COUNT ==> items_ordered(#[trigger] r@[k].ingredients@),
        forall|k: int| 0 <= k < ITEM_COUNT ==> starter_definition(#[trigger] r@[k]),
        r@[item_rank(IRON_BARS) as int].ingredients@.len() == 1,
{
    let mut items: Vec<ItemDefinition> = Vec::new();
    items.push(ItemDefinition::new(BUILDING_MATERIALS, "Building Materials", 20, 5, 20, 5, 1, vec![(IRON_BARS, 4), (STONE, 4)]));
    items.push(ItemDefinition::new(CIRCUITS, "Circuits", 1, 1, 20, 5, 1, vec![(COPPER_BARS, 1)]));
    items.push(ItemDefinition::new(COAL, "Coal", 1, 1, 100, 1, 1, Vec::new()));
    items.push(ItemDefinition::new(COAL_PLANT, "Coal Plant", 400, 200, 1, 40, 1,
        vec![(BUILDING_MATERIALS, 10), (CIRCUITS, 16), (FRAMES, 20), (MOTORS, 8)]).with_spawnable_game_object());
    items.push(ItemDefinition::new(COPPER_BARS, "Copper Bars", 1, 1, 100, 1, 10, vec![(COPPER_ORE, 3)]));
    items.push(ItemDefinition::new(COPPER_ORE, "Copper Ore", 1, 1, 100, 1, 1, Vec::new()));
    items.push(ItemDefinition::new(FACTORY_BUILDING, "Factory", 400, 200, 1, 40, 1,
        vec![(BUILDING_MATERIALS, 10), (CIRCUITS, 16), (FRAMES, 20), (MOTORS, 16)]).with_spawnable_game_object());
    items.push(ItemDefinition::new(FRAMES, "Frames", 10, 10, 20, 5, 1, vec![(IRON_BARS, 4)]));
    items.push(ItemDefinition::new(IRON_BARS, "Iron Bars", 1, 1, 100, 1, 10, vec![(IRON_ORE, 3)]));
    items.push(ItemDefinition::new(IRON_ORE, "Iron Ore", 1, 1, 100, 1, 1, Vec::new()));
    items.push(ItemDefinition::new(MINING_DRILL, "Mining Drill", 50, 1, 1, 5, 1, vec![(FRAMES, 4), (MOTORS, 1)]).with_spawnable_game_object());
    items.push(ItemDefinition::new(MOTORS, "Motors", 1, 1, 20, 5, 1, vec![(COPPER_BARS, 2), (IRON_BARS, 2)]));
    items.push(ItemDefinition::new(STONE, "Stone", 1, 1, 100, 1, 1, Vec::new()).with_create_from_nothing());
    items.push(ItemDefinition::new(STORAGE_WAREHOUSE, "Storage Warehouse", 400, 200, 1, 40, 1,
        vec![(BUILDING_MATERIALS, 20), (FRAMES, 20)]).with_spawnable_game_object());
    proof {
        assert(items@[0].ingredients@ =~= seq![(IRON_BARS, 4u32), (STONE, 4u32)]);
        assert(starter_definition(items@[0]));
        assert(items@[1].ingredients@ =~= seq![(COPPER_BARS, 1u32)]);
        assert(starter_definition(items@[1]));
        assert(items@[2].ingredients@ =~= Seq::empty());
        assert(starter_definition(items@[2]));
        assert(items@[3].ingredients@ =~= seq![(BUILDING_MATERIALS, 10u32), (CIRCUITS, 16u32), (FRAMES, 20u32), (MOTORS, 8u32)]);
        assert(starter_definition(items@[3]));
        assert(items@[4].ingredients@ =~= seq![(COPPER_ORE, 3u32)]);
        assert(starter_definition(items@[4]));
        assert(items@[5].ingredients@ =~= Seq::empty());
        assert(starter_definition(items@[5]));
        assert(items@[6].ingredients@ =~= seq![(BUILDING_MATERIALS, 10u32), (CIRCUITS, 16u32), (FRAMES, 20u32), (MOTORS, 16u32)]);
        assert(starter_definition(items@[6]));
        assert(items@[7].ingredients@ =~= seq![(IRON_BARS, 4u32)]);
        assert(starter_definition(items@[7]));
        assert(items@[8].ingredients@ =~= seq![(IRON_ORE, 3u32)]);
        assert(starter_definition(items@[8]));
        assert(items@[9].ingredients@ =~= Seq::empty());
        assert(starter_definition(items@[9]));
        assert(items@[10].ingredients@ =~= seq![(FRAMES, 4u32), (MOTORS, 1u32)]);
        assert(starter_definition(items@[10]));
        assert(items@[11].ingredients@ =~= seq![(COPPER_BARS, 2u32), (IRON_BARS, 2u32)]);
        assert(starter_definition(items@[11]));
        assert(items@[12].ingredients@ =~= Seq::empty());
        assert(starter_definition(items@[12]));
        assert(items@[13].ingredients@ =~= seq![(BUILDING_MATERIALS, 20u32), (FRAMES, 20u32)]);
        assert(starter_definition(items@[13]));
    }
    items
}

impl ContentDatabase {
    /// The starter catalog and every authored scenario.
    pub fn starter() -> (r: Self)
        ensures
            r.wf(),
            r.scenarios@.len() == SCENARIO_COUNT,
            forall|k: int| 0 <= k < SCENARIO_COUNT ==> scenario_rank(#[trigger] r.scenarios@[k].id) == k,
            iron_bars_shape(r.scenarios@[scenario_rank(IRON_BARS_SCENARIO) as int]),
            v2_world_shape(r.scenarios@[scenario_rank(V2_WORLD_SCENARIO) as int]),
            r.def(IRON_BARS).ingredients@.len() == 1,
            forall|item: ItemId| #[trigger] r.def(item).id == item && starter_definition(r.def(item)),
    {
        let items = starter_items();
        let mut scenarios: Vec<ScenarioDefinition> = Vec::new();
        scenarios.push(building_deployment_scenario());
        scenarios.push(building_materials_scenario());
        scenarios.push(deployment_demo_scenario());
        scenarios.push(distributed_chain_scenario());
        scenarios.push(four_corners_works_scenario());
        scenarios.push(hybrid_grid_scenario());
        scenarios.push(iron_bars_scenario());
        scenarios.push(iron_bars_fleet_scenario());
        scenarios.push(legacy_assembly_yard_scenario());
        scenarios.push(pathfinding_demo_scenario());
        scenarios.push(power_line_scenario());
        scenarios.push(powered_ironworks_scenario());
        scenarios.push(production_chain_scenario());
        scenarios.push(twin_plant_basin_scenario());
        scenarios.push(v2_world_scenario());
        let r = ContentDatabase { items, scenarios };
        proof {
            assert forall|item: ItemId| #[trigger] r.def(item).id == item && starter_definition(r.def(item)) by {
                lemma_item_rank_bijective(item);
                assert(item_rank(r.items@[item_rank(item) as int].id) == item_rank(item));
                lemma_item_rank_bijective(r.items@[item_rank(item) as int].id);
            }
        }
        r
    }
}

} // verus!
