use factory_sim::content::{GridPoint, LayoutSpec};
use factory_sim::node::{GridPosition, NodeId};
use factory_sim::topology::{Topology, ROUTE_CACHE_CAPACITY};

#[test]
fn astar_uses_the_open_road_for_the_linear_layout() {
    let mut topology = Topology::for_sources(1, false);
    assert_eq!(
        Some(vec![NodeId::Source(0), NodeId::Road, NodeId::Factory(0)]),
        topology.path(NodeId::Source(0), NodeId::Factory(0))
    );
}

#[test]
fn astar_routes_around_an_occupied_cell_deterministically() {
    let mut topology = Topology::from_layout(&LayoutSpec {
        width: 4,
        height: 3,
        source_positions: vec![GridPoint { x: 0, y: 1 }],
        road_position: GridPoint { x: 1, y: 0 },
        factory_positions: vec![GridPoint { x: 3, y: 1 }],
        generator_positions: Vec::new(),
        hauler_positions: Vec::new(),
        obstacles: vec![GridPoint { x: 1, y: 1 }],
    });
    assert_eq!(
        Some(vec![
            NodeId::Source(0),
            NodeId::Road,
            NodeId::Transit(GridPosition { x: 2, y: 1 }),
            NodeId::Factory(0),
        ]),
        topology.path(NodeId::Source(0), NodeId::Factory(0))
    );
}

#[test]
fn astar_reports_when_occupancy_seals_the_target() {
    let mut topology = Topology::for_sources(1, false).with_obstacles(vec![
        GridPosition { x: 1, y: 0 },
        GridPosition { x: 0, y: 1 },
        GridPosition { x: 1, y: 1 },
    ]);
    assert_eq!(None, topology.path(NodeId::Source(0), NodeId::Factory(0)));
    assert!(!topology.has_transfer_access(NodeId::Source(0)));
}

#[test]
fn topology_mutations_invalidate_cached_routes() {
    let mut topology = Topology::for_sources(1, false);
    let route = topology.path(NodeId::Source(0), NodeId::Factory(0));

    assert!(route.is_some());
    assert_eq!(1, topology.cached_routes());

    let road = topology.position(NodeId::Road);
    topology.block(road);
    assert_eq!(0, topology.cached_routes());

    topology.path(NodeId::Source(0), NodeId::Factory(0));
    assert_eq!(1, topology.cached_routes());

    topology.unblock(road);
    assert_eq!(0, topology.cached_routes());
}

#[test]
fn route_cache_evicts_deterministically_at_its_owning_capacity() {
    let mut topology = Topology::for_sources(1, false);
    for x in 0..ROUTE_CACHE_CAPACITY {
        topology.route_cache.push((
            NodeId::Transit(GridPosition { x: i32::try_from(x).unwrap(), y: 0 }),
            NodeId::Road,
            None,
        ));
    }

    let requested = (NodeId::Source(0), NodeId::Factory(0));
    assert!(topology.path(requested.0, requested.1).is_some());

    assert_eq!(ROUTE_CACHE_CAPACITY, topology.cached_routes());
    assert!(topology.route_cache.iter().any(|(from, to, _)| (*from, *to) == requested));
}

#[test]
fn the_next_step_follows_the_route() {
    let mut topology = Topology::for_sources(1, false);
    assert_eq!(Some(NodeId::Road), topology.step_toward(NodeId::Source(0), NodeId::Factory(0)));
    assert_eq!(Some(NodeId::Road), topology.step_toward(NodeId::Road, NodeId::Road));
}

#[test]
fn a_route_between_touching_cells_takes_one_step() {
    let mut topology = Topology::for_sources(2, false);
    assert_eq!(
        Some(vec![NodeId::Source(0), NodeId::Source(1)]),
        topology.path(NodeId::Source(0), NodeId::Source(1))
    );
}
