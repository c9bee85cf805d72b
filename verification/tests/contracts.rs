use factory_sim::content::{
    ContentDatabase, GridPoint, LayoutSpec, ScenarioId, IRON_BARS_SCENARIO, IRON_ORE, MINING_DRILL,
    POWERED_IRONWORKS_SCENARIO, V2_WORLD_SCENARIO,
};
use factory_sim::topology::Topology;
use factory_sim::{DispatchPolicy, DispatchPriority, GameState, GridPosition, NodeId};

#[test]
fn scenario_ids_read_back_from_their_names() {
    assert_eq!(Some(V2_WORLD_SCENARIO), ScenarioId::new("v2-world"));
    assert_eq!(Some(IRON_BARS_SCENARIO), ScenarioId::new("iron-bars"));
    assert_eq!(None, ScenarioId::new("moon-base"));
    assert_eq!(None, ScenarioId::new(""));
    for scenario in ContentDatabase::starter().scenarios.iter() {
        assert_eq!(Some(scenario.id), ScenarioId::new(scenario.id.as_str()));
    }
}

#[test]
fn dispatch_policy_set_then_clear_hands_back_the_setting() {
    let mut policy = DispatchPolicy::default();
    let factory = NodeId::Factory(1);
    assert_eq!(None, policy.set_priority(factory, IRON_ORE, DispatchPriority::high()));
    assert_eq!(DispatchPriority::high(), policy.priority(factory, IRON_ORE));
    assert_eq!(DispatchPriority::normal(), policy.priority(NodeId::Factory(0), IRON_ORE));
    assert_eq!(Some(DispatchPriority::high()), policy.set_priority(factory, IRON_ORE, DispatchPriority::normal()));
    assert_eq!(None, policy.set_priority(factory, IRON_ORE, DispatchPriority::normal()));
    assert_eq!(DispatchPriority::normal(), policy.priority(factory, IRON_ORE));
    assert_eq!(None, policy.set_priority(factory, IRON_ORE, DispatchPriority::low()));
    assert_eq!(Some(DispatchPriority::low()), policy.clear_priority(factory, IRON_ORE));
    assert_eq!(None, policy.clear_priority(factory, IRON_ORE));
    assert_eq!(DispatchPriority::normal(), policy.priority(factory, IRON_ORE));
}

#[test]
fn a_new_game_has_no_priority_settings_and_zero_counters() {
    let mut state = GameState::starter_iron_bars();
    let metrics = state.metrics();
    assert_eq!(0, metrics.ticks);
    assert_eq!(0, metrics.dispatches_assigned);
    assert_eq!(0, metrics.energy_balanced);
    assert_eq!(0, metrics.fuel_burned);
    assert_eq!(None, state.set_dispatch_priority(NodeId::Factory(0), IRON_ORE, DispatchPriority::high()));
    assert_eq!(DispatchPriority::high(), state.dispatch_priority(NodeId::Factory(0), IRON_ORE));
}

#[test]
fn powered_runs_count_generated_and_balanced_energy() {
    let mut state = GameState::new(ContentDatabase::starter(), POWERED_IRONWORKS_SCENARIO).expect("scenario runs");
    for _ in 0..5 {
        state.step();
    }
    let metrics = state.metrics();
    assert!(metrics.energy_generated > 0);
    assert!(metrics.energy_balanced > 0);
}

#[test]
fn the_next_step_is_the_second_node_of_the_route() {
    let mut topology = Topology::from_layout(&LayoutSpec {
        width: 4,
        height: 3,
        source_positions: vec![GridPoint { x: 0, y: 1 }],
        road_position: GridPoint { x: 1, y: 0 },
        factory_positions: vec![GridPoint { x: 3, y: 1 }],
        generator_positions: Vec::new(),
        hauler_positions: Vec::new(),
        obstacles: vec![GridPoint { x: 1, y: 1 }],
    });
    let route = topology.path(NodeId::Source(0), NodeId::Factory(0)).expect("a route");
    assert_eq!(Some(route[1]), topology.step_toward(NodeId::Source(0), NodeId::Factory(0)));
    assert!(topology.obstacles.contains(&GridPosition { x: 1, y: 1 }));
    assert!(topology.blocked.contains(&GridPosition { x: 1, y: 1 }));
    assert!(topology.blocked.contains(&GridPosition { x: 0, y: 1 }));
    assert!(!topology.blocked.contains(&GridPosition { x: 1, y: 0 }));
    let widened = topology.with_obstacles(vec![GridPosition { x: 2, y: 2 }]);
    assert_eq!(2, widened.obstacles.len());
    assert!(widened.blocked.contains(&GridPosition { x: 2, y: 2 }));
}

#[test]
fn the_starter_mining_drill_row_is_exact() {
    let content = ContentDatabase::starter();
    let drill = content.item(MINING_DRILL);
    assert_eq!((50, 1, 1, 5, 1), (drill.weight, drill.volume, drill.stack_size, drill.craft_time, drill.craft_output));
    assert!(drill.can_spawn_game_object);
    assert!(!drill.create_from_nothing);
    let v2 = content.scenario(V2_WORLD_SCENARIO);
    assert_eq!(GridPoint { x: 27, y: 27 }, v2.layout.generator_positions[0]);
    assert_eq!(GridPoint { x: 31, y: 25 }, v2.layout.source_positions[423]);
}
