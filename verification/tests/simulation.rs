use factory_sim::content::{
    ContentDatabase, GeneratorSpec, GridPoint, ItemId, ScenarioDefinition, ScenarioId, BUILDING_DEPLOYMENT_SCENARIO,
    BUILDING_MATERIALS, BUILDING_MATERIALS_SCENARIO, COAL, DEPLOYMENT_DEMO_SCENARIO, DISTRIBUTED_CHAIN_SCENARIO,
    FRAMES, HYBRID_GRID_SCENARIO, IRON_BARS, IRON_BARS_FLEET_SCENARIO, IRON_BARS_SCENARIO, IRON_ORE, MINING_DRILL,
    MOTORS, PATHFINDING_DEMO_SCENARIO, POWERED_IRONWORKS_SCENARIO, POWER_LINE_SCENARIO, PRODUCTION_CHAIN_SCENARIO,
    STONE, STORAGE_WAREHOUSE,
};
use factory_sim::content::{parse_scenario, V2_WORLD_SCENARIO};
use factory_sim::resources::ItemCounts;
use factory_sim::{
    AlertEntry, AlertHistory, Battery, BatteryOwner, Deposit, DispatchAssignment, DispatchPhase, DispatchPriority,
    DispatchReceiverState, DispatchVerb, GameState, GridPosition, Inventory, NodeId, PowerGenerator, SimulationError,
    StructureSnapshot,
};
use std::collections::BTreeSet;

fn scenario_mut(content: &mut ContentDatabase, id: ScenarioId) -> &mut ScenarioDefinition {
    content.scenarios.iter_mut().find(|scenario| scenario.id == id).expect("scenario exists")
}

fn held(items: &ItemCounts, item: ItemId) -> u32 {
    items.get(item.as_str()).copied().unwrap_or(0)
}

fn game(id: ScenarioId) -> GameState {
    match GameState::new(ContentDatabase::starter(), id) {
        Ok(state) => state,
        Err(error) => panic!("scenario runs: {error:?}"),
    }
}

fn game_with(content: ContentDatabase, id: ScenarioId) -> GameState {
    match GameState::new(content, id) {
        Ok(state) => state,
        Err(error) => panic!("scenario runs: {error:?}"),
    }
}

#[test]
fn manifest_factories_produce_without_recipe_inputs() {
    let mut content = ContentDatabase::starter();
    scenario_mut(&mut content, IRON_BARS_SCENARIO).factories[0].product_item = STONE;
    let mut state = game_with(content, IRON_BARS_SCENARIO);

    let first = state.step();

    assert_eq!(Some(&1), first.factories[0].inventory.items.get(STONE.as_str()));
    assert_eq!(Some(&1), state.metrics().crafted.get(STONE.as_str()));
}

#[test]
fn ingredientless_non_manifest_recipes_remain_invalid() {
    let mut content = ContentDatabase::starter();
    scenario_mut(&mut content, IRON_BARS_SCENARIO).factories[0].product_item = IRON_ORE;

    assert!(matches!(
        GameState::new(content, IRON_BARS_SCENARIO),
        Err(SimulationError::RecipeMissingIngredients(IRON_ORE))
    ));
}

#[test]
fn source_deposit_depletes_in_the_iron_bars_scenario() {
    let mut state = GameState::starter_iron_bars();
    let snapshots: Vec<_> = (0..6).map(|_| state.step()).collect();

    assert_eq!(Deposit::Finite(6), snapshots[0].sources[0].mining.deposit);
    assert_eq!(Deposit::Finite(0), snapshots[2].sources[0].mining.deposit);
    assert!(snapshots[0].events.iter().any(|event| event.starts_with("mine")));
    assert!(snapshots[3..].iter().all(|snapshot| snapshot.events.iter().all(|event| !event.starts_with("mine"))));
}

#[test]
fn run_metrics_summarize_a_fixed_iron_bars_run() {
    let mut state = GameState::starter_iron_bars();
    for _ in 0..6 {
        state.step();
    }
    let metrics = state.metrics();

    assert_eq!(6, metrics.ticks);
    assert_eq!(9, held(&metrics.mined, IRON_ORE));
    assert_eq!(20, held(&metrics.crafted, IRON_BARS));
    assert_eq!(3, metrics.dispatches_assigned);
    assert_eq!(9, metrics.units_collected);
    assert_eq!(9, metrics.units_delivered);
    assert_eq!(0, metrics.idle_ticks);
}

#[test]
fn run_metrics_are_deterministic_across_runs() {
    let mut first = GameState::starter_iron_bars();
    let mut second = GameState::starter_iron_bars();
    for _ in 0..12 {
        first.step();
        second.step();
    }
    assert_eq!(first.metrics(), second.metrics());
}

#[test]
fn dispatch_lifecycle_advances_through_collect_and_deliver() {
    let mut state = game(IRON_BARS_SCENARIO);

    let first = state.step();
    assert!(matches!(
        first.haulers[0].dispatch,
        DispatchReceiverState::Assigned(DispatchAssignment { phase: DispatchPhase::Collect, .. })
    ));
    assert_eq!(NodeId::Road, first.haulers[0].position);
    assert_eq!(3, held(&first.haulers[0].cargo.items, IRON_ORE));
    assert_eq!(NodeId::Source(0), first.haulers[0].target);

    let second = state.step();
    assert!(matches!(
        second.haulers[0].dispatch,
        DispatchReceiverState::Assigned(DispatchAssignment { phase: DispatchPhase::Deliver, .. })
    ));
    assert_eq!(NodeId::Road, second.haulers[0].position);
    assert_eq!(0, held(&second.haulers[0].cargo.items, IRON_ORE));
    assert!(!second.factories[0].craft.crafting);
    assert_eq!(Some(&10), second.factories[0].inventory.items.get(IRON_BARS.as_str()));

    let third = state.step();
    assert!(matches!(
        third.haulers[0].dispatch,
        DispatchReceiverState::Assigned(DispatchAssignment { phase: DispatchPhase::Collect, .. })
    ));
    assert_eq!(NodeId::Road, third.haulers[0].position);
    assert_eq!(3, held(&third.haulers[0].cargo.items, IRON_ORE));
    assert!(!third.factories[0].craft.crafting);

    let fourth = state.step();
    assert!(matches!(
        fourth.haulers[0].dispatch,
        DispatchReceiverState::Assigned(DispatchAssignment { phase: DispatchPhase::Deliver, .. })
    ));
    assert_eq!(NodeId::Road, fourth.haulers[0].position);
    assert_eq!(NodeId::Factory(0), fourth.haulers[0].target);
}

#[test]
fn repeated_factory_conditions_refresh_one_object_alert() {
    let mut state = GameState::starter_iron_bars();
    let factory = &mut state.world.factories[0];
    factory.production.inventory.force_insert(IRON_ORE, 3);
    factory.production.inventory.force_insert(IRON_BARS, 20);

    let first = state.step();
    assert_eq!(
        Some(&AlertEntry { tick: 1, message: "product output full".into() }),
        first.factories[0].alerts.latest()
    );

    let second = state.step();
    assert_eq!(1, second.factories[0].alerts.entries.len());
    assert_eq!(
        Some(&AlertEntry { tick: 2, message: "product output full".into() }),
        second.factories[0].alerts.latest()
    );
}

#[test]
fn receiver_alerts_remain_isolated_to_the_owning_hauler() {
    let mut state = GameState::starter_iron_bars();
    let hauler = &mut state.world.haulers[0];
    hauler.assign(DispatchAssignment::collect(IRON_ORE, NodeId::Source(0), NodeId::Factory(0)));
    hauler.cargo.force_insert(IRON_ORE, 1);

    let snapshot = state.step();
    assert_eq!("collect => deliver", snapshot.haulers[0].alerts.latest().unwrap().message);
    assert!(snapshot.sources.iter().all(|source| source.alerts.entries.is_empty()));
    assert!(snapshot.factories.iter().all(|factory| factory.alerts.entries.is_empty()));
}

#[test]
fn iron_bars_loop_is_deterministic() {
    let mut first = game(IRON_BARS_SCENARIO);
    let mut second = game(IRON_BARS_SCENARIO);

    let first_run: Vec<_> = (0..6).map(|_| first.step()).collect();
    let second_run: Vec<_> = (0..6).map(|_| second.step()).collect();

    assert_eq!(first_run, second_run);
    assert!(first_run.iter().any(|snapshot| held(&snapshot.factories[0].inventory.items, IRON_BARS) > 0));
}

#[test]
fn adjacent_transfer_stops_before_entering_occupied_buildings() {
    let mut state = game(IRON_BARS_SCENARIO);

    let first = state.step();
    assert_eq!(NodeId::Road, first.haulers[0].position);
    assert!(first.events.iter().any(|event| event.contains("dispatch collect")));
    assert!(!first.events.iter().any(|event| event.contains("dispatch deliver")));

    let second = state.step();
    assert_eq!(NodeId::Road, second.haulers[0].position);
    assert!(second.events.iter().any(|event| event.contains("dispatch deliver")));
    let factory_position = second.topology.nodes.iter().find(|node| node.id == NodeId::Factory(0)).unwrap().position;
    assert!(second.topology.blocked.contains(&factory_position));
}

#[test]
fn collect_and_deliver_require_transfer_range() {
    let mut state = game(IRON_BARS_SCENARIO);
    state.world.haulers[0].position = NodeId::Factory(0);
    state.world.haulers[0].dispatch = DispatchReceiverState::Assigned(DispatchAssignment {
        item: IRON_ORE,
        source: NodeId::Source(0),
        destination: NodeId::Factory(0),
        phase: DispatchPhase::Collect,
        priority: DispatchPriority::normal(),
    });

    let collect_snapshot = state.step();
    assert_eq!(0, held(&collect_snapshot.haulers[0].cargo.items, IRON_ORE));
    assert!(collect_snapshot.events.iter().all(|event| !event.contains("dispatch collect")));
    assert_eq!(NodeId::Road, collect_snapshot.haulers[0].position);

    state.world.haulers[0].position = NodeId::Source(0);
    state.world.haulers[0].cargo.insert_exact(&ContentDatabase::starter(), IRON_ORE, 3).unwrap();
    state.world.haulers[0].dispatch = DispatchReceiverState::Assigned(DispatchAssignment {
        item: IRON_ORE,
        source: NodeId::Source(0),
        destination: NodeId::Factory(0),
        phase: DispatchPhase::Deliver,
        priority: DispatchPriority::normal(),
    });

    let deliver_snapshot = state.step();
    assert_eq!(3, held(&deliver_snapshot.haulers[0].cargo.items, IRON_ORE));
    assert!(deliver_snapshot.events.iter().all(|event| !event.contains("dispatch deliver")));
    assert_eq!(NodeId::Road, deliver_snapshot.haulers[0].position);
}

#[test]
fn factory_advertises_one_intent_per_missing_input() {
    let mut state = game(BUILDING_MATERIALS_SCENARIO);

    let first = state.step();
    let intent_items: Vec<&str> = first.factories[0].dispatch.intents.iter().map(|intent| intent.item.as_str()).collect();
    assert_eq!(vec![IRON_BARS.as_str(), STONE.as_str()], intent_items);
}

#[test]
fn dispatch_targets_the_nearest_matching_world_object() {
    let mut content = ContentDatabase::starter();
    let scenario = scenario_mut(&mut content, IRON_BARS_SCENARIO);
    scenario.sources.push(scenario.sources[0].clone());
    scenario.layout.width = 6;
    scenario.layout.height = 3;
    scenario.layout.source_positions = vec![GridPoint { x: 0, y: 1 }, GridPoint { x: 4, y: 1 }];
    scenario.layout.road_position = GridPoint { x: 3, y: 0 };
    scenario.layout.factory_positions = vec![GridPoint { x: 5, y: 1 }];

    let mut state = game_with(content, IRON_BARS_SCENARIO);
    let first = state.step();
    let DispatchReceiverState::Assigned(assignment) = &first.haulers[0].dispatch else {
        panic!("nearest source receives the dispatch");
    };

    assert_eq!(IRON_ORE, assignment.item);
    assert_eq!(NodeId::Source(1), assignment.source);
    assert_eq!(NodeId::Factory(0), assignment.destination);
}

fn contested_dispatch_content() -> ContentDatabase {
    let mut content = ContentDatabase::starter();
    let scenario = scenario_mut(&mut content, IRON_BARS_SCENARIO);
    scenario.factories.push(scenario.factories[0].clone());
    scenario.layout.width = 6;
    scenario.layout.height = 3;
    scenario.layout.source_positions = vec![GridPoint { x: 0, y: 1 }];
    scenario.layout.road_position = GridPoint { x: 2, y: 1 };
    scenario.layout.factory_positions = vec![GridPoint { x: 3, y: 0 }, GridPoint { x: 5, y: 1 }];
    content
}

#[test]
fn higher_priority_dispatch_demand_wins_one_hauler_contention() {
    let mut state = game_with(contested_dispatch_content(), IRON_BARS_SCENARIO);

    assert_eq!(DispatchPriority::normal(), state.dispatch_priority(NodeId::Factory(1), IRON_ORE));
    assert_eq!(None, state.set_dispatch_priority(NodeId::Factory(1), IRON_ORE, DispatchPriority::high()));

    let first = state.step();
    let DispatchReceiverState::Assigned(assignment) = &first.haulers[0].dispatch else {
        panic!("the available hauler receives contested demand");
    };

    assert_eq!(NodeId::Factory(1), assignment.destination);
    assert_eq!(DispatchPriority::high(), assignment.priority);
    assert_eq!(
        Some(DispatchPriority::high()),
        first.factories[1]
            .dispatch
            .intents
            .iter()
            .find(|intent| intent.verb == DispatchVerb::Deliver && intent.item == IRON_ORE)
            .map(|intent| intent.priority)
    );
}

#[test]
fn equal_priority_dispatch_demand_uses_deterministic_destination_order() {
    let mut first = game_with(contested_dispatch_content(), IRON_BARS_SCENARIO);
    let mut second = game_with(contested_dispatch_content(), IRON_BARS_SCENARIO);

    let first_snapshot = first.step();
    let second_snapshot = second.step();
    assert_eq!(first_snapshot, second_snapshot);

    let DispatchReceiverState::Assigned(assignment) = &first_snapshot.haulers[0].dispatch else {
        panic!("the available hauler receives contested demand");
    };
    assert_eq!(NodeId::Factory(0), assignment.destination);
    assert_eq!(DispatchPriority::normal(), assignment.priority);
}

#[test]
fn scenario_factory_buffer_is_the_dispatch_threshold() {
    let mut content = ContentDatabase::starter();
    scenario_mut(&mut content, IRON_BARS_SCENARIO).factories[0].input_buffer = 4;
    let mut state = game_with(content, IRON_BARS_SCENARIO);
    let content = state.content().clone();
    let factory = &mut state.world.factories[0];

    factory.production.inventory.insert_exact(&content, IRON_ORE, 4).expect("configured reservation holds the buffer");
    factory.refresh_dispatch(&content);
    assert!(factory.dispatch.intents.iter().all(|intent| intent.item != IRON_ORE));

    factory.production.inventory.remove_exact(IRON_ORE, 1).expect("buffer stock can be consumed");
    factory.refresh_dispatch(&content);
    assert!(factory.dispatch.intents.iter().any(|intent| intent.item == IRON_ORE));
}

#[test]
fn deployment_radar_targets_its_nearest_unoccupied_matching_source() {
    let mut content = ContentDatabase::starter();
    let scenario = scenario_mut(&mut content, DEPLOYMENT_DEMO_SCENARIO);
    scenario.sources.push(scenario.sources[0].clone());
    scenario.layout.width = 6;
    scenario.layout.height = 3;
    scenario.layout.source_positions = vec![GridPoint { x: 0, y: 1 }, GridPoint { x: 4, y: 1 }];
    scenario.layout.road_position = GridPoint { x: 3, y: 0 };
    scenario.layout.factory_positions = vec![GridPoint { x: 5, y: 1 }];

    let mut state = game_with(content, DEPLOYMENT_DEMO_SCENARIO);
    let first = state.step();
    let DispatchReceiverState::Assigned(assignment) = &first.haulers[0].dispatch else {
        panic!("drill receives the nearest deployment target");
    };

    assert_eq!(MINING_DRILL, assignment.item);
    assert_eq!(NodeId::Source(0), assignment.destination);
}

#[test]
fn deployment_radar_releases_a_completed_claim() {
    let mut state = game(DEPLOYMENT_DEMO_SCENARIO);
    let first = state.step();
    assert_eq!(Some(NodeId::Source(0)), first.radars[0].claimed_target);

    let released = (0..32).find_map(|_| {
        let snapshot = state.step();
        snapshot.events.iter().any(|event| event == "radar radar-0 released source-0").then_some(snapshot)
    });
    let released = released.expect("deployment completes and releases its radar claim");
    assert_eq!(None, released.radars[0].claimed_target);
    assert!(released.radars[0].alerts.latest().is_some_and(|alert| alert.message == "released source-0"));
}

#[test]
fn building_materials_loop_services_both_source_types() {
    let mut first = game(BUILDING_MATERIALS_SCENARIO);
    let mut second = game(BUILDING_MATERIALS_SCENARIO);

    let first_run: Vec<_> = (0..20).map(|_| first.step()).collect();
    let second_run: Vec<_> = (0..20).map(|_| second.step()).collect();
    assert_eq!(first_run, second_run);

    let metrics = first.metrics();
    assert!(held(&metrics.mined, IRON_BARS) > 0);
    assert!(held(&metrics.mined, STONE) > 0);
    assert!(held(&metrics.crafted, BUILDING_MATERIALS) > 0);
    assert!(first_run.iter().any(|snapshot| held(&snapshot.factories[0].inventory.items, BUILDING_MATERIALS) > 0));
}

#[test]
fn adjacent_inserters_run_the_multi_factory_drill_chain() {
    let mut first = game(PRODUCTION_CHAIN_SCENARIO);
    let mut second = game(PRODUCTION_CHAIN_SCENARIO);

    let first_run: Vec<_> = (0..80).map(|_| first.step()).collect();
    let second_run: Vec<_> = (0..80).map(|_| second.step()).collect();
    assert_eq!(first_run, second_run);
    assert_eq!(5, first_run[0].factories.len());
    assert!(first_run
        .iter()
        .flat_map(|snapshot| &snapshot.events)
        .any(|event| event.starts_with("inserter move iron_ore") && event.contains("source-0")));
    assert!(first_run
        .iter()
        .flat_map(|snapshot| &snapshot.events)
        .any(|event| event.starts_with("inserter move frames") && event.contains("factory-2")));
    assert!(held(&first_run.last().unwrap().factories[4].inventory.items, MINING_DRILL) > 0);
}

#[test]
fn haulers_retrieve_factory_output_for_nonadjacent_demand() {
    let mut state = game(DISTRIBUTED_CHAIN_SCENARIO);
    let snapshots: Vec<_> = (0..100).map(|_| state.step()).collect();

    assert!(snapshots.iter().flat_map(|snapshot| &snapshot.events).any(|event| event.contains("dispatch collect")
        && event.contains("factory-0")
        && event.contains("factory-1")));
    assert!(held(&snapshots.last().unwrap().factories[1].inventory.items, FRAMES) > 0);
    assert!(snapshots.iter().all(|snapshot| {
        snapshot.haulers.iter().all(|hauler| {
            !matches!(hauler.position, NodeId::Factory(_)) && !matches!(hauler.position, NodeId::Source(_))
        })
    }));
}

#[test]
fn inserters_ignore_nonadjacent_resource_containers() {
    let mut content = ContentDatabase::starter();
    scenario_mut(&mut content, PRODUCTION_CHAIN_SCENARIO).layout.factory_positions[4] = GridPoint { x: 0, y: 0 };
    let mut state = game_with(content, PRODUCTION_CHAIN_SCENARIO);

    for _ in 0..80 {
        state.step();
    }

    assert_eq!(0, state.world.factories[4].production.inventory.count(MINING_DRILL));
    assert!(state.world.factories[2].production.inventory.count(FRAMES) > 0);
    assert!(state.world.factories[3].production.inventory.count(MOTORS) > 0);
}

#[test]
fn fleet_arbitration_assigns_only_needed_haulers() {
    let mut state = game(IRON_BARS_FLEET_SCENARIO);

    let first = state.step();
    let assigned: Vec<bool> =
        first.haulers.iter().map(|hauler| matches!(hauler.dispatch, DispatchReceiverState::Assigned(_))).collect();
    assert_eq!(vec![true, true, false], assigned);
}

#[test]
fn deliveries_never_exceed_the_factory_input_buffer() {
    let mut state = game(IRON_BARS_FLEET_SCENARIO);

    let mut bars_seen = false;
    for _ in 0..16 {
        let snapshot = state.step();
        let input_stock = held(&snapshot.factories[0].inventory.items, IRON_ORE);
        assert!(input_stock <= 6, "input stock {input_stock} exceeds buffer");
        bars_seen |= held(&snapshot.factories[0].inventory.items, IRON_BARS) > 0;
    }
    assert!(bars_seen);
}

#[test]
fn powered_ironworks_burns_fuel_and_routes_coal_to_the_plant() {
    let mut state = game(POWERED_IRONWORKS_SCENARIO);
    let snapshots: Vec<_> = (0..32).map(|_| state.step()).collect();
    let metrics = state.metrics();

    assert!(metrics.fuel_burned > 0);
    assert!(metrics.energy_generated > 0);
    assert!(metrics.energy_consumed > 0);
    assert!(held(&metrics.mined, COAL) > 0);
    assert!(held(&metrics.crafted, IRON_BARS) > 0);
    assert!(snapshots.iter().any(|snapshot| {
        snapshot.events.iter().any(|event| event.contains("dispatch deliver") && event.contains("generator-0"))
    }));
    assert!(snapshots.iter().all(|snapshot| snapshot.power.as_ref().is_some_and(|power| power.energy <= power.capacity)));
}

#[test]
fn fuel_free_generation_requires_no_inventory_or_dispatch() {
    let content = ContentDatabase::starter();
    let spec = GeneratorSpec { item: None, fuel_item: None, initial_fuel: 0, fuel_buffer: 0, burn_rate: 0, gain_rate: 10, grid_capacity: 100 };
    let node = NodeId::Generator(0);
    let mut generator = PowerGenerator::new(&content, node, spec, Inventory::new(1, 1));
    let mut battery = Battery::new(BatteryOwner::Node(node), 0, 100);
    let mut events = Vec::new();

    generator.refresh_dispatch();
    assert_eq!((0, 10), generator.generate(&mut battery, &mut events));
    assert_eq!(10, battery.energy);
    assert!(generator.fuel.is_empty());
    assert!(generator.dispatch.intents.is_empty());
}

#[test]
fn zero_output_generation_does_not_consume_or_request_fuel() {
    let content = ContentDatabase::starter();
    let spec = GeneratorSpec { item: None, fuel_item: Some(COAL), initial_fuel: 4, fuel_buffer: 8, burn_rate: 2, gain_rate: 0, grid_capacity: 100 };
    let node = NodeId::Generator(0);
    let mut generator = PowerGenerator::new(&content, node, spec, Inventory::new(64, 64));
    let mut battery = Battery::new(BatteryOwner::Node(node), 0, 100);

    generator.refresh_dispatch();
    assert_eq!((0, 0), generator.generate(&mut battery, &mut Vec::new()));
    assert_eq!(4, generator.fuel.count(COAL));
    assert!(generator.dispatch.intents.is_empty());
}

#[test]
fn a_full_generator_battery_does_not_consume_fuel() {
    let content = ContentDatabase::starter();
    let spec = GeneratorSpec { item: None, fuel_item: Some(COAL), initial_fuel: 4, fuel_buffer: 4, burn_rate: 2, gain_rate: 200, grid_capacity: 100 };
    let node = NodeId::Generator(0);
    let mut generator = PowerGenerator::new(&content, node, spec, Inventory::new(64, 64));
    let mut battery = Battery::new(BatteryOwner::Node(node), 100, 100);

    assert_eq!((0, 0), generator.generate(&mut battery, &mut Vec::new()));
    assert_eq!(4, generator.fuel.count(COAL));
    assert_eq!(100, battery.energy);
}

#[test]
fn generator_output_clamps_to_remaining_battery_capacity() {
    let content = ContentDatabase::starter();
    let spec = GeneratorSpec { item: None, fuel_item: None, initial_fuel: 0, fuel_buffer: 0, burn_rate: 0, gain_rate: 200, grid_capacity: 100 };
    let node = NodeId::Generator(0);
    let mut generator = PowerGenerator::new(&content, node, spec, Inventory::new(1, 1));
    let mut battery = Battery::new(BatteryOwner::Node(node), 0, 100);

    assert_eq!((0, 100), generator.generate(&mut battery, &mut Vec::new()));
    assert_eq!(100, battery.energy);
}

#[test]
fn hybrid_grid_sums_fueled_and_fuel_free_output() {
    let mut state = game(HYBRID_GRID_SCENARIO);
    let snapshot = state.step();

    assert_eq!(120, state.metrics().energy_generated);
    assert_eq!(2, snapshot.power.as_ref().unwrap().generators.len());
    assert_eq!(Some(COAL), snapshot.power.as_ref().unwrap().generators[0].fuel_item);
    assert_eq!(None, snapshot.power.as_ref().unwrap().generators[1].fuel_item);
    assert!(snapshot.events.iter().any(|event| event.starts_with("power generate generator-0 burned 2 generated 80")));
    assert!(snapshot.events.iter().any(|event| event.starts_with("power generate generator-1 burned 0 generated 40")));
}

#[test]
fn two_generators_balance_combined_output_across_four_equal_batteries() {
    let mut state = game(HYBRID_GRID_SCENARIO);
    let power = state.world.power.as_mut().unwrap();
    for generator in &mut power.generators {
        generator.spec.fuel_item = None;
        generator.spec.burn_rate = 0;
        generator.spec.gain_rate = 10;
    }
    state.world.batteries.clear();
    for owner in [
        BatteryOwner::Node(NodeId::Generator(0)),
        BatteryOwner::Node(NodeId::Generator(1)),
        BatteryOwner::Node(NodeId::Source(0)),
        BatteryOwner::Node(NodeId::Source(1)),
    ] {
        state.world.batteries.insert(Battery::new(owner, 0, 100));
    }

    state.advance_power(&mut Vec::new());

    assert_eq!(20, state.metrics().energy_generated);
    assert!(state.world.batteries.values().iter().all(|battery| battery.energy == 5));
}

#[test]
fn an_empty_power_grid_blocks_energy_gated_systems() {
    let mut state = game(POWERED_IRONWORKS_SCENARIO);
    let power = state.world.power.as_mut().expect("scenario has a power plant");
    power.generators[0].fuel.remove_up_to(COAL, u32::MAX);

    let snapshot = state.step();
    let metrics = state.metrics();

    assert!(snapshot.sources.iter().all(|source| source.stockpile.items.is_empty()));
    assert_eq!(0, metrics.energy_generated);
    assert!(metrics.power_starvations >= 2);
    assert!(snapshot.events.iter().any(|event| event.starts_with("power starved mining")));
}

#[test]
fn batteries_clamp_capacity_and_reject_overdraw() {
    let owner = BatteryOwner::Node(NodeId::Factory(0));
    let mut battery = Battery::new(owner, 9, 0);

    assert_eq!(5, battery.capacity);
    assert_eq!(5, battery.energy);
    assert_eq!(0, battery.charge(10));
    assert!(!battery.consume(6));
    assert_eq!(5, battery.energy);
    assert!(battery.consume(3));
    assert_eq!(2, battery.energy);
}

#[test]
fn adjacent_batteries_balance_by_capacity_without_losing_energy() {
    let mut state = game(POWERED_IRONWORKS_SCENARIO);
    state.world.batteries.clear();
    let first = BatteryOwner::Node(NodeId::Source(0));
    let second = BatteryOwner::Node(NodeId::Source(1));
    state.world.batteries.insert(Battery::new(first, 25, 100));
    state.world.batteries.insert(Battery::new(second, 75, 200));

    state.balance_batteries(&mut Vec::new());

    assert_eq!(33, state.world.batteries.get(&first).unwrap().energy);
    assert_eq!(67, state.world.batteries.get(&second).unwrap().energy);
    assert_eq!(100, state.world.batteries.values().iter().map(|battery| battery.energy).sum::<u32>());
}

#[test]
fn disconnected_batteries_do_not_exchange_energy() {
    let mut state = game(POWERED_IRONWORKS_SCENARIO);
    state.world.batteries.clear();
    let source = BatteryOwner::Node(NodeId::Source(0));
    let factory = BatteryOwner::Node(NodeId::Factory(0));
    state.world.batteries.insert(Battery::new(source, 25, 100));
    state.world.batteries.insert(Battery::new(factory, 75, 100));

    state.balance_batteries(&mut Vec::new());

    assert_eq!(25, state.world.batteries.get(&source).unwrap().energy);
    assert_eq!(75, state.world.batteries.get(&factory).unwrap().energy);
}

#[test]
fn powered_snapshots_expose_every_object_battery() {
    let mut state = game(POWERED_IRONWORKS_SCENARIO);
    let snapshot = state.step();
    let power = snapshot.power.unwrap();

    assert_eq!(6, power.batteries.len());
    assert_eq!(power.energy, power.batteries.iter().map(|battery| battery.energy).sum::<u32>());
    assert!(power.batteries.iter().any(|battery| battery.owner == BatteryOwner::Node(NodeId::Generator(0))));
    assert!(power.batteries.iter().any(|battery| battery.owner == BatteryOwner::Hauler(0)));
}

#[test]
fn generator_builds_one_greedy_battery_backed_power_line() {
    let mut state = game(POWER_LINE_SCENARIO);

    let first = state.step();
    assert_eq!(
        BTreeSet::from([GridPosition { x: 1, y: 1 }, GridPosition { x: 2, y: 1 }, GridPosition { x: 3, y: 1 }]),
        first.topology.power_lines
    );
    assert!(first.events.iter().any(|event| event.starts_with("power line generator-0 built 3 cells")));
    for position in &first.topology.power_lines {
        assert!(first.power.as_ref().unwrap().batteries.iter().any(|battery| battery.owner == BatteryOwner::PowerLine(*position)));
    }
    assert!(
        first
            .power
            .as_ref()
            .unwrap()
            .batteries
            .iter()
            .find(|battery| battery.owner == BatteryOwner::Node(NodeId::Factory(0)))
            .unwrap()
            .energy
            > 0
    );

    let second = state.step();
    assert_eq!(first.topology.power_lines, second.topology.power_lines);
    assert!(second.events.iter().all(|event| !event.starts_with("power line generator")));
}

#[test]
fn retrieve_and_deploy_activates_a_source_through_the_mutation_queue() {
    let mut state = game(DEPLOYMENT_DEMO_SCENARIO);
    let snapshots: Vec<_> = (0..8).map(|_| state.step()).collect();

    let deploy_tick = snapshots
        .iter()
        .position(|snapshot| snapshot.events.iter().any(|event| event.contains("world deploy mining drill")))
        .expect("drill deployment occurs");
    assert!(snapshots[..deploy_tick].iter().all(|snapshot| snapshot.sources[0].stockpile.items.is_empty()));
    assert!(snapshots.iter().any(|snapshot| snapshot
        .events
        .iter()
        .any(|event| event.contains("dispatch retrieve") && event.contains("factory"))));
    assert!(snapshots.iter().any(|snapshot| snapshot
        .events
        .iter()
        .any(|event| event.contains("dispatch deploy") && event.contains("queued"))));
    assert!(snapshots.iter().any(|snapshot| snapshot.events.iter().any(|event| event.contains("world deploy mining drill"))));
    assert!(snapshots.last().expect("run has snapshots").sources[0].deployed);
    assert!(held(&snapshots.last().expect("run has snapshots").sources[0].stockpile.items, IRON_ORE) > 0);
    assert_eq!(1, state.metrics().deployments);
    assert_eq!(0, held(&snapshots.last().expect("run has snapshots").factories[0].inventory.items, MINING_DRILL));
}

#[test]
fn spawnable_factory_inventory_constructs_a_blocking_world_structure() {
    let mut state = game(BUILDING_DEPLOYMENT_SCENARIO);
    let initial = state.snapshot(Vec::new());
    let site_position = GridPosition { x: 4, y: 1 };

    assert!(initial.topology.nodes.iter().any(|node| node.id == NodeId::BuildSite(0) && node.position == site_position));
    assert!(!initial.topology.blocked.contains(&site_position));
    assert!(initial.structures.is_empty());

    let snapshots = (0..16).map(|_| state.step()).collect::<Vec<_>>();
    let built = snapshots
        .iter()
        .find(|snapshot| snapshot.events.iter().any(|event| event == "world spawn storage_warehouse at structure-0"))
        .expect("warehouse construction completes");

    assert!(snapshots.iter().any(|snapshot| snapshot
        .events
        .iter()
        .any(|event| event.contains("dispatch retrieve") && event.contains("factory"))));
    assert_eq!(
        vec![StructureSnapshot { node: NodeId::Structure(0), item: STORAGE_WAREHOUSE, alerts: AlertHistory::default() }],
        built.structures
    );
    assert!(built.topology.blocked.contains(&site_position));
    assert!(built.topology.nodes.iter().any(|node| node.id == NodeId::Structure(0) && node.position == site_position));
    assert!(!built.topology.nodes.iter().any(|node| node.id == NodeId::BuildSite(0)));
    assert_eq!(1, state.metrics().deployments);
    assert_eq!(1, state.world.structures.len());
    assert_eq!(0, state.world.factories[0].production.inventory.count(STORAGE_WAREHOUSE));
}

#[test]
fn deployment_scenario_is_deterministic() {
    let mut first = game(DEPLOYMENT_DEMO_SCENARIO);
    let mut second = game(DEPLOYMENT_DEMO_SCENARIO);
    let first_run: Vec<_> = (0..12).map(|_| first.step()).collect();
    let second_run: Vec<_> = (0..12).map(|_| second.step()).collect();
    assert_eq!(first_run, second_run);
    assert_eq!(first.metrics(), second.metrics());
}

#[test]
fn depleted_ore_and_empty_drill_teardown_at_world_boundaries() {
    let mut state = game(DEPLOYMENT_DEMO_SCENARIO);
    let snapshots = (0..64).map(|_| state.step()).collect::<Vec<_>>();
    let deposit_delete_tick = snapshots
        .iter()
        .position(|snapshot| snapshot.events.iter().any(|event| event.contains("delete depleted ore")))
        .expect("depleted ore is deleted");
    let drill_delete_tick = snapshots
        .iter()
        .position(|snapshot| snapshot.events.iter().any(|event| event.contains("delete depleted mining drill")))
        .expect("empty drill is deleted");
    let final_snapshot = snapshots.last().expect("run has snapshots");

    assert!(deposit_delete_tick < drill_delete_tick);
    assert!(final_snapshot.sources[0].exhausted);
    assert!(!final_snapshot.sources[0].deployed);
    assert!(final_snapshot.sources[0].stockpile.items.is_empty());
    assert_eq!(2, state.metrics().world_deletions);
    assert!(!final_snapshot.topology.blocked.contains(&final_snapshot.topology.nodes[0].position));
}

#[test]
fn pathfinding_scenario_routes_around_the_blocked_cell() {
    let mut state = game(PATHFINDING_DEMO_SCENARIO);
    let first = state.step();
    let second = state.step();
    let third = state.step();
    let fourth = state.step();

    assert_eq!(NodeId::Road, first.haulers[0].position);
    assert_eq!(NodeId::Transit(GridPosition { x: 2, y: 1 }), second.haulers[0].position);
    assert_eq!(NodeId::Transit(GridPosition { x: 2, y: 1 }), third.haulers[0].position);
    assert!(third.events.iter().any(|event| event.contains("deliver 3")));
    assert_ne!(NodeId::Factory(0), fourth.haulers[0].position);
    assert_eq!(1, first.topology.obstacles.len(), "the occupied cell is exposed to projections");
}

#[test]
fn movement_queue_applies_after_deterministic_transit_arbitration() {
    let mut content = ContentDatabase::starter();
    scenario_mut(&mut content, PATHFINDING_DEMO_SCENARIO).hauler_count = 2;
    let mut state = game_with(content, PATHFINDING_DEMO_SCENARIO);
    for hauler in &mut state.world.haulers {
        hauler.position = NodeId::Road;
        hauler.assign(DispatchAssignment {
            item: IRON_ORE,
            source: NodeId::Source(0),
            destination: NodeId::Factory(0),
            phase: DispatchPhase::Deliver,
            priority: DispatchPriority::normal(),
        });
    }
    let mut events = Vec::new();

    state.queue_hauler_movements(&mut events);

    assert!(state.world.haulers.iter().all(|hauler| hauler.position == NodeId::Road));
    assert_eq!(1, state.world.queued_mutations.len());
    assert!(events.iter().any(|event| event.contains("hauler-1 blocked by queued transit occupancy")));

    state.apply_world_mutations(&mut events);

    assert_eq!(NodeId::Transit(GridPosition { x: 2, y: 1 }), state.world.haulers[0].position);
    assert_eq!(NodeId::Road, state.world.haulers[1].position);
    assert!(state.world.queued_mutations.is_empty());
}

#[test]
fn unknown_and_malformed_scenarios_are_refused() {
    let mut content = ContentDatabase::starter();
    content.scenarios.retain(|scenario| scenario.id != IRON_BARS_SCENARIO);
    assert!(matches!(GameState::new(content, IRON_BARS_SCENARIO), Err(SimulationError::UnknownScenario(IRON_BARS_SCENARIO))));

    let mut content = ContentDatabase::starter();
    scenario_mut(&mut content, IRON_BARS_SCENARIO).factories.clear();
    assert!(matches!(
        GameState::new(content, IRON_BARS_SCENARIO),
        Err(SimulationError::ScenarioMissingFactories(IRON_BARS_SCENARIO))
    ));

    let mut content = ContentDatabase::starter();
    scenario_mut(&mut content, IRON_BARS_SCENARIO).layout.source_positions.clear();
    assert!(matches!(
        GameState::new(content, IRON_BARS_SCENARIO),
        Err(SimulationError::ScenarioLayoutMismatch(IRON_BARS_SCENARIO))
    ));
}

#[test]
fn priorities_read_back_and_clear() {
    let mut state = GameState::starter_iron_bars();
    assert_eq!(None, state.set_dispatch_priority(NodeId::Factory(0), IRON_ORE, DispatchPriority::low()));
    assert_eq!(DispatchPriority::low(), state.dispatch_priority(NodeId::Factory(0), IRON_ORE));
    assert_eq!(Some(DispatchPriority::low()), state.clear_dispatch_priority(NodeId::Factory(0), IRON_ORE));
    assert_eq!(DispatchPriority::normal(), state.dispatch_priority(NodeId::Factory(0), IRON_ORE));
}

#[test]
fn balancing_keeps_the_total_energy_of_a_powered_run() {
    let mut state = game(POWERED_IRONWORKS_SCENARIO);
    state.step();
    let before: u32 = state.world.batteries.values().iter().map(|battery| battery.energy).sum();
    state.balance_batteries(&mut Vec::new());
    let after: u32 = state.world.batteries.values().iter().map(|battery| battery.energy).sum();
    assert_eq!(before, after);
    assert!(state.world.batteries.values().iter().all(|battery| battery.energy <= battery.capacity));
}

#[test]
fn liveness_counts_what_a_run_is_doing() {
    let mut state = GameState::starter_iron_bars();
    let start = state.liveness_summary();
    assert_eq!(0, start.tick);
    assert_eq!(0, start.queued_mutations);
    assert_eq!(0, start.power_links);
    for _ in 0..6 {
        state.step();
    }
    let summary = state.liveness_summary();
    assert_eq!(6, summary.tick);
    assert_eq!(state.world.sources.iter().filter(|s| s.deployed).count(), summary.deployed_sources);
    assert_eq!(state.world.haulers.iter().filter(|h| !h.route.is_empty()).count(), summary.routed_haulers);
    assert_eq!(
        state.world.haulers.iter().map(|h| h.route.len()).max().unwrap_or(0),
        summary.max_route_len
    );
}

#[test]
fn scenario_names_parse_and_oversized_starts_are_detected() {
    let content = ContentDatabase::starter();
    assert_eq!(Ok(IRON_BARS_SCENARIO), parse_scenario(&content, "iron-bars"));
    assert_eq!(Err("unknown scenario: moon-base".to_string()), parse_scenario(&content, "moon-base"));
    assert!(GameState::fits(&content, IRON_BARS_SCENARIO));
    assert!(!GameState::fits(&content, V2_WORLD_SCENARIO));
    assert_eq!(
        "scenario iron-bars layout does not match its world objects",
        SimulationError::ScenarioLayoutMismatch(IRON_BARS_SCENARIO).message()
    );
    assert_eq!(
        "capacity exceeded for coal: requested 5, accepted 2",
        factory_sim::InventoryError::CapacityExceeded { item: COAL, requested: 5, accepted: 2 }.message()
    );
}

#[test]
fn every_refusal_reads_as_a_sentence() {
    assert_eq!(
        "scenario iron-bars must define at least one source",
        SimulationError::ScenarioMissingSources(IRON_BARS_SCENARIO).message()
    );
    assert_eq!(
        "unknown item: iron_ore",
        factory_sim::InventoryError::UnknownItem(factory_sim::content::IRON_ORE).message()
    );
}
