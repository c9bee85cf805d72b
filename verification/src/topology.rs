//! The world grid: where each object stands, which cells are blocked, and
//! A* routes between objects.
use vstd::prelude::*;
use crate::content::{LayoutSpec, ScenarioDefinition};
use crate::node::{node_lt, GridPosition, NodeId};
use std::collections::BTreeSet;

verus! {

/// The most routes a topology remembers.
pub const ROUTE_CACHE_CAPACITY: usize = 4_096;

#[derive(Copy, Clone, Debug, PartialEq, Eq, Structural)]
pub struct TopologyNode {
    pub id: NodeId,
    pub position: GridPosition,
}

/// Whether two cells are distinct and touch, diagonally included.
pub open spec fn adjacent_spec(a: GridPosition, b: GridPosition) -> bool {
    a != b && -1 <= a.x - b.x <= 1 && -1 <= a.y - b.y <= 1
}

pub fn adjacent(a: GridPosition, b: GridPosition) -> (r: bool)
    ensures
        r == adjacent_spec(a, b),
{
    let dx: i64 = a.x as i64 - b.x as i64;
    let dy: i64 = a.y as i64 - b.y as i64;
    a != b && -1 <= dx && dx <= 1 && -1 <= dy && dy <= 1
}

/// The first node with a given id, if any.
pub open spec fn node_index_of(nodes: Seq<TopologyNode>, id: NodeId) -> Option<int> {
    if exists|k: int| 0 <= k < nodes.len() && nodes[k].id == id {
        Some(choose|k: int| 0 <= k < nodes.len() && nodes[k].id == id && forall|j: int| 0 <= j < k ==> nodes[j].id != id)
    } else {
        None
    }
}

proof fn lemma_first_exists(nodes: Seq<TopologyNode>, id: NodeId, w: int)
    requires
        0 <= w < nodes.len(),
        nodes[w].id == id,
    ensures
        exists|k: int| 0 <= k < nodes.len() && nodes[k].id == id && forall|j: int| 0 <= j < k ==> nodes[j].id != id,
    decreases w,
{
    if forall|j: int| 0 <= j < w ==> nodes[j].id != id {
        assert(0 <= w < nodes.len() && nodes[w].id == id && forall|j: int| 0 <= j < w ==> nodes[j].id != id);
    } else {
        let j = choose|j: int| 0 <= j < w && nodes[j].id == id;
        lemma_first_exists(nodes, id, j);
    }
}

/// The first index of a node holds the node.
pub proof fn lemma_node_index_in_range(nodes: Seq<TopologyNode>, id: NodeId)
    ensures
        node_index_of(nodes, id) matches Some(k) ==> 0 <= k < nodes.len() && nodes[k].id == id,
{
    if exists|k: int| 0 <= k < nodes.len() && nodes[k].id == id {
        let w = choose|k: int| 0 <= k < nodes.len() && nodes[k].id == id;
        lemma_first_exists(nodes, id, w);
    }
}

proof fn lemma_first_index(nodes: Seq<TopologyNode>, id: NodeId, k: int)
    requires
        0 <= k < nodes.len(),
        nodes[k].id == id,
        forall|j: int| 0 <= j < k ==> nodes[j].id != id,
    ensures
        node_index_of(nodes, id) == Some(k),
{
    let c = choose|m: int| 0 <= m < nodes.len() && nodes[m].id == id && forall|j: int| 0 <= j < m ==> nodes[j].id != id;
    assert(0 <= c < nodes.len() && nodes[c].id == id && forall|j: int| 0 <= j < c ==> nodes[j].id != id);
    if c < k {
        assert(nodes[c].id != id);
    } else if c > k {
        assert(nodes[k].id != id);
    }
}

/// Where a node stands: a transit cell at itself, another node where the
/// topology places it first, and the origin for a node it does not hold.
pub open spec fn position_in(nodes: Seq<TopologyNode>, id: NodeId) -> GridPosition {
    match id {
        NodeId::Transit(p) => p,
        _ => match node_index_of(nodes, id) {
            Some(k) => nodes[k].position,
            None => GridPosition { x: 0, y: 0 },
        },
    }
}

#[derive(Debug)]
pub struct Topology {
    pub width: i32,
    pub height: i32,
    pub nodes: Vec<TopologyNode>,
    /// Cells that routes avoid: every placed object but the road, and the
    /// obstacles.
    pub blocked: Vec<GridPosition>,
    pub obstacles: Vec<GridPosition>,
    /// Routes computed since the topology last changed, keyed by endpoints.
    pub route_cache: Vec<(NodeId, NodeId, Option<Vec<NodeId>>)>,
}

/// The octile distance in tenths: ten per straight step, fourteen per
/// diagonal one.
pub open spec fn heuristic_spec(from: GridPosition, to: GridPosition) -> int {
    let x = if from.x >= to.x { from.x - to.x } else { to.x - from.x };
    let y = if from.y >= to.y { from.y - to.y } else { to.y - from.y };
    if x >= y { 10 * x + 4 * y } else { 10 * y + 4 * x }
}

fn abs_diff(a: i32, b: i32) -> (r: u64)
    ensures
        r == (if a >= b { a - b } else { b - a }),
{
    if a >= b { (a as i64 - b as i64) as u64 } else { (b as i64 - a as i64) as u64 }
}

pub fn heuristic(from: GridPosition, to: GridPosition) -> (r: u64)
    ensures
        r == heuristic_spec(from, to),
{
    let x = abs_diff(from.x, to.x);
    let y = abs_diff(from.y, to.y);
    if x >= y { 10 * x + 4 * y } else { 10 * y + 4 * x }
}

fn contains_position(cells: &Vec<GridPosition>, p: GridPosition) -> (r: bool)
    ensures
        r == cells@.contains(p),
{
    let mut k: usize = 0;
    while k < cells.len()
        invariant
            k <= cells@.len(),
            forall|j: int| 0 <= j < k ==> cells@[j] != p,
        decreases cells@.len() - k,
    {
        if cells[k] == p {
            return true;
        }
        k = k + 1;
    }
    false
}

/// Adds a cell to a set held as a vector; returns whether it was new.
pub fn insert_position(cells: &mut Vec<GridPosition>, p: GridPosition) -> (r: bool)
    ensures
        r == !old(cells)@.contains(p),
        final(cells)@ == (if r { old(cells)@.push(p) } else { old(cells)@ }),
{
    if contains_position(cells, p) {
        false
    } else {
        cells.push(p);
        true
    }
}

/// Removes every copy of a cell from a set held as a vector; returns whether
/// it was there.
pub fn remove_position(cells: &mut Vec<GridPosition>, p: GridPosition) -> (r: bool)
    ensures
        r == old(cells)@.contains(p),
        !final(cells)@.contains(p),
        forall|q: GridPosition| q != p ==> (final(cells)@.contains(q) <==> old(cells)@.contains(q)),
        !r ==> final(cells)@ == old(cells)@,
{
    if !contains_position(cells, p) {
        return false;
    }
    let mut kept: Vec<GridPosition> = Vec::new();
    let mut found = false;
    let mut k: usize = 0;
    while k < cells.len()
        invariant
            k <= cells@.len(),
            cells@ == old(cells)@,
            found == cells@.take(k as int).contains(p),
            !kept@.contains(p),
            forall|q: GridPosition| q != p ==> (kept@.contains(q) <==> cells@.take(k as int).contains(q)),
        decreases cells@.len() - k,
    {
        let c = cells[k];
        proof {
            broadcast use vstd::seq_lib::lemma_seq_contains_after_push;
            assert(cells@.take(k + 1) =~= cells@.take(k as int).push(c));
        }
        if c == p {
            found = true;
        } else {
            kept.push(c);
        }
        proof {
            broadcast use vstd::seq_lib::lemma_seq_contains_after_push;
        }
        k = k + 1;
    }
    assert(cells@.take(k as int) =~= cells@);
    *cells = kept;
    found
}

/// Whether the order of positions is a lawful total order, as the one that
/// `derive` writes for two integer fields is.
pub open spec fn lawful_position_order() -> bool {
    vstd::laws_cmp::obeys_cmp::<GridPosition>()
}

/// The positions among the first `k` of a list.
pub open spec fn cells_seen(cells: Seq<GridPosition>, k: usize) -> Set<GridPosition> {
    cells.take(k as int).to_set()
}

proof fn lemma_cells_seen_step(cells: Seq<GridPosition>, k: usize)
    requires
        k < cells.len() <= usize::MAX,
    ensures
        cells_seen(cells, (k + 1) as usize) == cells_seen(cells, k).insert(cells[k as int]),
{
    assert(cells.take(k + 1) =~= cells.take(k as int).push(cells[k as int]));
    cells.take(k as int).lemma_push_to_set_commute(cells[k as int]);
}

proof fn lemma_cells_seen_ends(cells: Seq<GridPosition>, k: usize)
    ensures
        k == 0 ==> cells_seen(cells, k) == Set::<GridPosition>::empty(),
        k == cells.len() ==> cells_seen(cells, k) == cells.to_set(),
{
    assert(cells.take(0) =~= Seq::<GridPosition>::empty());
    assert(cells.take(cells.len() as int) =~= cells);
}

/// The positions of a set as an ordered set. Its contents are those of
/// `cells` wherever the positions' order is a lawful total order.
pub fn position_set(cells: &Vec<GridPosition>) -> (r: BTreeSet<GridPosition>)
    ensures
        lawful_position_order() ==> r@ == cells@.to_set(),
{
    let mut set: BTreeSet<GridPosition> = BTreeSet::new();
    let mut k: usize = 0;
    proof {
        lemma_cells_seen_ends(cells@, k);
    }
    while k < cells.len()
        invariant
            k <= cells@.len(),
            lawful_position_order() ==> set@ == cells_seen(cells@, k),
        decreases cells@.len() - k,
    {
        proof {
            lemma_cells_seen_step(cells@, k);
        }
        set.insert(cells[k]);
        k = k + 1;
    }
    proof {
        lemma_cells_seen_ends(cells@, k);
    }
    set
}

/// The id of the `index`th object of a kind: deposits, factories,
/// generators, radars, and build sites.
pub open spec fn kind_node(kind: u8, index: u16) -> NodeId {
    if kind == 0 {
        NodeId::Source(index)
    } else if kind == 1 {
        NodeId::Factory(index)
    } else if kind == 2 {
        NodeId::Generator(index)
    } else if kind == 3 {
        NodeId::Radar(index)
    } else {
        NodeId::BuildSite(index)
    }
}

/// The cell of a layout point.
pub open spec fn cell_of(p: crate::content::GridPoint) -> GridPosition {
    GridPosition { x: p.x, y: p.y }
}

/// The nodes of objects of one kind standing at `points`, numbered in order.
pub open spec fn point_nodes(points: Seq<crate::content::GridPoint>, kind: u8) -> Seq<TopologyNode> {
    Seq::new(points.len(), |j: int| TopologyNode { id: kind_node(kind, j as u16), position: cell_of(points[j]) })
}

/// Whether every kind of object of a layout can be numbered.
pub open spec fn layout_numbered(layout: LayoutSpec) -> bool {
    &&& layout.source_positions@.len() <= u16::MAX + 1
    &&& layout.factory_positions@.len() <= u16::MAX + 1
    &&& layout.generator_positions@.len() <= u16::MAX + 1
}

/// The nodes of a layout: deposits, then the road, then factories, then
/// generators.
pub open spec fn layout_nodes(layout: LayoutSpec) -> Seq<TopologyNode> {
    point_nodes(layout.source_positions@, 0)
        + seq![TopologyNode { id: NodeId::Road, position: cell_of(layout.road_position) }]
        + point_nodes(layout.factory_positions@, 1)
        + point_nodes(layout.generator_positions@, 2)
}

/// Whether a node other than the road stands on a cell.
pub open spec fn held_by_object(nodes: Seq<TopologyNode>, p: GridPosition) -> bool {
    exists|k: int| 0 <= k < nodes.len() && nodes[k].id != NodeId::Road && #[trigger] nodes[k].position == p
}

/// Whether a cell is one of the listed layout points.
pub open spec fn among_points(points: Seq<crate::content::GridPoint>, p: GridPosition) -> bool {
    exists|j: int| 0 <= j < points.len() && #[trigger] cell_of(points[j]) == p
}

proof fn lemma_contains_push(s: Seq<GridPosition>, x: GridPosition, p: GridPosition)
    ensures
        s.push(x).contains(p) <==> (s.contains(p) || p == x),
{
    if s.contains(p) {
        let j = choose|j: int| 0 <= j < s.len() && s[j] == p;
        assert(s.push(x)[j] == p);
    }
    if p == x {
        assert(s.push(x)[s.len() as int] == p);
    }
    if s.push(x).contains(p) {
        let j = choose|j: int| 0 <= j < s.push(x).len() && s.push(x)[j] == p;
        if j < s.len() {
            assert(s[j] == p);
        }
    }
}

/// Every generator node is numbered below `n`.
pub open spec fn generators_below(nodes: Seq<TopologyNode>, n: int) -> bool {
    forall|k: int| 0 <= k < nodes.len() && (#[trigger] nodes[k]).id is Generator ==> (nodes[k].id->Generator_0) < n
}

fn nodes_from_points(
    nodes: &mut Vec<TopologyNode>,
    points: &Vec<crate::content::GridPoint>,
    kind: u8,
)
    requires
        points@.len() <= u16::MAX + 1,
    ensures
        final(nodes)@.len() == old(nodes)@.len() + points@.len(),
        forall|j: int| 0 <= j < old(nodes)@.len() ==> final(nodes)@[j] == old(nodes)@[j],
        forall|j: int| 0 <= j < points@.len() ==> #[trigger] final(nodes)@[old(nodes)@.len() + j].id == kind_node(kind, j as u16),
        final(nodes)@ == old(nodes)@ + point_nodes(points@, kind),
{
    let mut k: usize = 0;
    while k < points.len()
        invariant
            points@.len() <= u16::MAX + 1,
            k <= points@.len(),
            nodes@.len() == old(nodes)@.len() + k,
            forall|j: int| 0 <= j < old(nodes)@.len() ==> nodes@[j] == old(nodes)@[j],
            forall|j: int| 0 <= j < k ==> #[trigger] nodes@[old(nodes)@.len() + j].id == kind_node(kind, j as u16),
            forall|j: int| 0 <= j < k ==> #[trigger] nodes@[old(nodes)@.len() + j] == point_nodes(points@, kind)[j],
        decreases points@.len() - k,
    {
        let index = k as u16;
        let id = if kind == 0 {
            NodeId::Source(index)
        } else if kind == 1 {
            NodeId::Factory(index)
        } else if kind == 2 {
            NodeId::Generator(index)
        } else if kind == 3 {
            NodeId::Radar(index)
        } else {
            NodeId::BuildSite(index)
        };
        nodes.push(TopologyNode { id, position: GridPosition { x: points[k].x, y: points[k].y } });
        k = k + 1;
    }
    assert(nodes@ =~= old(nodes)@ + point_nodes(points@, kind)) by {
        assert forall|j: int| 0 <= j < nodes@.len() implies nodes@[j] == (old(nodes)@ + point_nodes(points@, kind))[j] by {
            if j >= old(nodes)@.len() {
                let i = j - old(nodes)@.len();
                assert(nodes@[old(nodes)@.len() + i] == point_nodes(points@, kind)[i]);
            }
        }
    }
}

impl Topology {
    /// The topology of a linear layout with `source_count` deposits.
    pub fn for_sources(source_count: u16, include_generator: bool) -> (r: Self)
        ensures
            r.width == 3,
            r.cache_wf(),
    {
        Self::from_layout(&LayoutSpec::linear(source_count, include_generator))
    }

    /// The topology of a layout: deposits, then the road, then factories, then
    /// generators. Every object but the road blocks its cell, as do the
    /// obstacles.
    pub fn from_layout(layout: &LayoutSpec) -> (r: Self)
        ensures
            r.width == layout.width,
            r.height == layout.height,
            r.route_cache_len() == 0,
            r.cache_wf(),
            generators_below(r.nodes@, layout.generator_positions@.len() as int),
            layout_numbered(*layout) ==> r.nodes@ == layout_nodes(*layout),
            forall|p: GridPosition| #[trigger] r.obstacles@.contains(p) <==> among_points(layout.obstacles@, p),
            forall|p: GridPosition| #[trigger] r.blocked@.contains(p) <==> held_by_object(r.nodes@, p) || r.obstacles@.contains(p),
    {
        let mut nodes: Vec<TopologyNode> = Vec::new();
        let sources = clip_points(&layout.source_positions);
        nodes_from_points(&mut nodes, &sources, 0);
        let ghost n_sources = nodes@;
        nodes.push(TopologyNode { id: NodeId::Road, position: GridPosition { x: layout.road_position.x, y: layout.road_position.y } });
        let ghost n_road = nodes@;
        let factories = clip_points(&layout.factory_positions);
        nodes_from_points(&mut nodes, &factories, 1);
        let ghost n_factories = nodes@;
        let ghost before_generators = nodes@.len();
        let generators = clip_points(&layout.generator_positions);
        nodes_from_points(&mut nodes, &generators, 2);
        proof {
            let n = nodes@;
            let s_len = sources@.len();
            let f_len = factories@.len();
            assert forall|k: int| 0 <= k < n.len() && (#[trigger] n[k]).id is Generator
                implies (n[k].id->Generator_0) < layout.generator_positions@.len() by {
                if k < s_len {
                    assert(n_sources[0 + k].id == kind_node(0, k as u16));
                    assert(n_road[k] == n_sources[k]);
                    assert(n_factories[k] == n_road[k]);
                    assert(n[k] == n_factories[k]);
                } else if k == s_len {
                    assert(n_factories[k] == n_road[k]);
                    assert(n[k] == n_factories[k]);
                } else if k < s_len + 1 + f_len {
                    let j = k - s_len - 1;
                    assert(n_factories[n_road.len() + j].id == kind_node(1, j as u16));
                    assert(n[k] == n_factories[k]);
                } else {
                    let j = k - before_generators;
                    assert(n[before_generators + j].id == kind_node(2, j as u16));
                    assert((j as u16) < generators@.len()) by {
                        assert(j < 0x1_0000);
                    }
                }
            }
        }
        proof {
            if layout_numbered(*layout) {
                assert(nodes@ =~= layout_nodes(*layout));
            }
        }
        let mut obstacles: Vec<GridPosition> = Vec::new();
        let mut k: usize = 0;
        while k < layout.obstacles.len()
            invariant
                k <= layout.obstacles@.len(),
                forall|p: GridPosition| #[trigger] obstacles@.contains(p)
                    <==> among_points(layout.obstacles@.take(k as int), p),
            decreases layout.obstacles@.len() - k,
        {
            let q = GridPosition { x: layout.obstacles[k].x, y: layout.obstacles[k].y };
            let ghost before = obstacles@;
            insert_position(&mut obstacles, q);
            proof {
                assert forall|p: GridPosition| #[trigger] obstacles@.contains(p)
                    <==> among_points(layout.obstacles@.take(k + 1), p) by {
                    lemma_contains_push(before, q, p);
                    let t = layout.obstacles@.take(k as int);
                    let t1 = layout.obstacles@.take(k + 1);
                    assert(t1[k as int] == layout.obstacles@[k as int]);
                    assert(cell_of(t1[k as int]) == q);
                    if among_points(t, p) {
                        let j = choose|j: int| 0 <= j < t.len() && #[trigger] cell_of(t[j]) == p;
                        assert(t1[j] == t[j]);
                    }
                    if among_points(t1, p) {
                        let j = choose|j: int| 0 <= j < t1.len() && #[trigger] cell_of(t1[j]) == p;
                        if j < k {
                            assert(t[j] == t1[j]);
                        }
                    }
                }
            }
            k = k + 1;
        }
        assert(layout.obstacles@.take(k as int) =~= layout.obstacles@);
        let mut blocked: Vec<GridPosition> = Vec::new();
        let mut k: usize = 0;
        while k < nodes.len()
            invariant
                k <= nodes@.len(),
                forall|p: GridPosition| #[trigger] blocked@.contains(p) <==> held_by_object(nodes@.take(k as int), p),
            decreases nodes@.len() - k,
        {
            let ghost before = blocked@;
            let ghost t = nodes@.take(k as int);
            let ghost t1 = nodes@.take(k + 1);
            if nodes[k].id != NodeId::Road {
                insert_position(&mut blocked, nodes[k].position);
            }
            proof {
                assert forall|p: GridPosition| #[trigger] blocked@.contains(p) <==> held_by_object(t1, p) by {
                    lemma_contains_push(before, nodes@[k as int].position, p);
                    assert(t1[k as int] == nodes@[k as int]);
                    if held_by_object(t, p) {
                        let j = choose|j: int| 0 <= j < t.len() && t[j].id != NodeId::Road && #[trigger] t[j].position == p;
                        assert(t1[j] == t[j]);
                    }
                    if held_by_object(t1, p) {
                        let j = choose|j: int| 0 <= j < t1.len() && t1[j].id != NodeId::Road && #[trigger] t1[j].position == p;
                        if j < k {
                            assert(t[j] == t1[j]);
                        }
                    }
                }
            }
            k = k + 1;
        }
        assert(nodes@.take(k as int) =~= nodes@);
        let mut k: usize = 0;
        while k < obstacles.len()
            invariant
                k <= obstacles@.len(),
                forall|p: GridPosition| #[trigger] blocked@.contains(p)
                    <==> held_by_object(nodes@, p) || obstacles@.take(k as int).contains(p),
            decreases obstacles@.len() - k,
        {
            let ghost before = blocked@;
            insert_position(&mut blocked, obstacles[k]);
            proof {
                assert(obstacles@.take(k + 1) =~= obstacles@.take(k as int).push(obstacles@[k as int]));
                assert forall|p: GridPosition| #[trigger] blocked@.contains(p)
                    <==> held_by_object(nodes@, p) || obstacles@.take(k + 1).contains(p) by {
                    lemma_contains_push(before, obstacles@[k as int], p);
                    lemma_contains_push(obstacles@.take(k as int), obstacles@[k as int], p);
                }
            }
            k = k + 1;
        }
        assert(obstacles@.take(k as int) =~= obstacles@);
        Topology { width: layout.width, height: layout.height, nodes, blocked, obstacles, route_cache: Vec::new() }
    }

    /// Whether the topology is the one a scenario lays out: its size, its
    /// nodes (those of the layout, then radars, then build sites), its
    /// obstacles, and the cells its objects and obstacles block.
    pub open spec fn lays_out(self, scenario: ScenarioDefinition) -> bool {
        &&& self.width == scenario.layout.width
        &&& self.height == scenario.layout.height
        &&& (layout_numbered(scenario.layout) && scenario.radars@.len() <= u16::MAX + 1
            && scenario.build_sites@.len() <= u16::MAX + 1 ==> self.nodes@ == layout_nodes(scenario.layout)
                + point_nodes(Seq::new(scenario.radars@.len(), |j: int| scenario.radars@[j].position), 3)
                + point_nodes(Seq::new(scenario.build_sites@.len(), |j: int| scenario.build_sites@[j].position), 4))
        &&& forall|p: GridPosition| #[trigger] self.obstacles@.contains(p) <==> among_points(scenario.layout.obstacles@, p)
        &&& layout_numbered(scenario.layout) ==> forall|p: GridPosition| #[trigger] self.blocked@.contains(p)
            <==> held_by_object(layout_nodes(scenario.layout), p) || self.obstacles@.contains(p)
    }

    /// The topology of a scenario's layout, with its radars and build sites
    /// placed without blocking their cells.
    pub fn from_scenario(scenario: &ScenarioDefinition) -> (r: Self)
        ensures
            r.width == scenario.layout.width,
            r.height == scenario.layout.height,
            r.route_cache_len() == 0,
            r.cache_wf(),
            generators_below(r.nodes@, scenario.layout.generator_positions@.len() as int),
            layout_numbered(scenario.layout) && scenario.radars@.len() <= u16::MAX + 1
                && scenario.build_sites@.len() <= u16::MAX + 1 ==> r.nodes@ == layout_nodes(scenario.layout)
                    + point_nodes(Seq::new(scenario.radars@.len(), |j: int| scenario.radars@[j].position), 3)
                    + point_nodes(Seq::new(scenario.build_sites@.len(), |j: int| scenario.build_sites@[j].position), 4),
            forall|p: GridPosition| #[trigger] r.obstacles@.contains(p) <==> among_points(scenario.layout.obstacles@, p),
            layout_numbered(scenario.layout) ==> forall|p: GridPosition| #[trigger] r.blocked@.contains(p)
                <==> held_by_object(layout_nodes(scenario.layout), p) || r.obstacles@.contains(p),
            r.lays_out(*scenario),
    {
        let mut topology = Self::from_layout(&scenario.layout);
        let mut radar_points: Vec<crate::content::GridPoint> = Vec::new();
        let mut k: usize = 0;
        while k < scenario.radars.len() && k <= u16::MAX as usize
            invariant
                k <= scenario.radars@.len(),
                k <= u16::MAX + 1,
                radar_points@.len() == k,
                forall|j: int| 0 <= j < k ==> radar_points@[j] == (#[trigger] scenario.radars@[j]).position,
            decreases scenario.radars@.len() - k,
        {
            radar_points.push(scenario.radars[k].position);
            k = k + 1;
        }
        let ghost before_radars = topology.nodes@;
        nodes_from_points(&mut topology.nodes, &radar_points, 3);
        let mut site_points: Vec<crate::content::GridPoint> = Vec::new();
        let mut k: usize = 0;
        while k < scenario.build_sites.len() && k <= u16::MAX as usize
            invariant
                k <= scenario.build_sites@.len(),
                k <= u16::MAX + 1,
                site_points@.len() == k,
                forall|j: int| 0 <= j < k ==> site_points@[j] == (#[trigger] scenario.build_sites@[j]).position,
            decreases scenario.build_sites@.len() - k,
        {
            site_points.push(scenario.build_sites[k].position);
            k = k + 1;
        }
        let ghost before_sites = topology.nodes@;
        nodes_from_points(&mut topology.nodes, &site_points, 4);
        proof {
            if scenario.radars@.len() <= u16::MAX + 1 {
                assert(radar_points@ =~= Seq::new(scenario.radars@.len(), |j: int| scenario.radars@[j].position));
            }
            if scenario.build_sites@.len() <= u16::MAX + 1 {
                assert(site_points@ =~= Seq::new(scenario.build_sites@.len(), |j: int| scenario.build_sites@[j].position));
            }
        }
        proof {
            let n = topology.nodes@;
            assert forall|k: int| 0 <= k < n.len() && (#[trigger] n[k]).id is Generator
                implies (n[k].id->Generator_0) < scenario.layout.generator_positions@.len() by {
                if k < before_radars.len() {
                    assert(n[k] == before_radars[k]);
                } else if k < before_sites.len() {
                    let j = k - before_radars.len();
                    assert(n[before_radars.len() + j].id == kind_node(3, j as u16));
                } else {
                    let j = k - before_sites.len();
                    assert(n[before_sites.len() + j].id == kind_node(4, j as u16));
                }
            }
        }
        topology
    }

    /// The topology with more obstacles, which block their cells.
    pub fn with_obstacles(self, obstacles: Vec<GridPosition>) -> (r: Self)
        ensures
            r.width == self.width,
            r.height == self.height,
            r.nodes@ == self.nodes@,
            forall|p: GridPosition| obstacles@.contains(p) ==> r.blocked@.contains(p) && r.obstacles@.contains(p),
            forall|p: GridPosition| self.blocked@.contains(p) ==> r.blocked@.contains(p),
            forall|p: GridPosition| #[trigger] r.blocked@.contains(p) <==> self.blocked@.contains(p) || obstacles@.contains(p),
            forall|p: GridPosition| #[trigger] r.obstacles@.contains(p) <==> self.obstacles@.contains(p) || obstacles@.contains(p),
            r.route_cache_len() == 0,
            r.cache_wf(),
    {
        let mut r = self;
        let mut k: usize = 0;
        while k < obstacles.len()
            invariant
                k <= obstacles@.len(),
                r.width == self.width,
                r.height == self.height,
                r.nodes@ == self.nodes@,
                forall|j: int| 0 <= j < k ==> r.blocked@.contains(#[trigger] obstacles@[j]) && r.obstacles@.contains(obstacles@[j]),
                forall|p: GridPosition| self.blocked@.contains(p) ==> r.blocked@.contains(p),
                forall|p: GridPosition| #[trigger] r.blocked@.contains(p) <==> self.blocked@.contains(p) || obstacles@.take(k as int).contains(p),
                forall|p: GridPosition| #[trigger] r.obstacles@.contains(p) <==> self.obstacles@.contains(p) || obstacles@.take(k as int).contains(p),
            decreases obstacles@.len() - k,
        {
            let p = obstacles[k];
            let ghost before_blocked = r.blocked@;
            let ghost before_obstacles = r.obstacles@;
            insert_position(&mut r.blocked, p);
            insert_position(&mut r.obstacles, p);
            proof {
                assert forall|q: GridPosition| before_blocked.contains(q) implies r.blocked@.contains(q) by {
                    let j = choose|j: int| 0 <= j < before_blocked.len() && before_blocked[j] == q;
                    assert(r.blocked@[j] == q);
                }
                assert forall|q: GridPosition| before_obstacles.contains(q) implies r.obstacles@.contains(q) by {
                    let j = choose|j: int| 0 <= j < before_obstacles.len() && before_obstacles[j] == q;
                    assert(r.obstacles@[j] == q);
                }
                if !before_blocked.contains(p) {
                    assert(r.blocked@[before_blocked.len() as int] == p);
                }
                if !before_obstacles.contains(p) {
                    assert(r.obstacles@[before_obstacles.len() as int] == p);
                }
                assert(r.blocked@.contains(p));
                assert(r.obstacles@.contains(p));
                assert(obstacles@.take(k + 1) =~= obstacles@.take(k as int).push(p));
                assert forall|q: GridPosition| #[trigger] r.blocked@.contains(q)
                    <==> self.blocked@.contains(q) || obstacles@.take(k + 1).contains(q) by {
                    lemma_contains_push(before_blocked, p, q);
                    lemma_contains_push(obstacles@.take(k as int), p, q);
                }
                assert forall|q: GridPosition| #[trigger] r.obstacles@.contains(q)
                    <==> self.obstacles@.contains(q) || obstacles@.take(k + 1).contains(q) by {
                    lemma_contains_push(before_obstacles, p, q);
                    lemma_contains_push(obstacles@.take(k as int), p, q);
                }
            }
            k = k + 1;
        }
        assert(obstacles@.take(k as int) =~= obstacles@);
        assert forall|p: GridPosition| obstacles@.contains(p) implies r.blocked@.contains(p) && r.obstacles@.contains(p) by {
            let j = choose|j: int| 0 <= j < obstacles@.len() && obstacles@[j] == p;
            assert(r.blocked@.contains(obstacles@[j]));
        }
        r.route_cache = Vec::new();
        r
    }

    /// How many routes the topology remembers.
    pub open spec fn route_cache_len(self) -> nat {
        self.route_cache@.len()
    }

    pub fn cached_routes(&self) -> (r: usize)
        ensures
            r == self.route_cache_len(),
    {
        self.route_cache.len()
    }

    /// Whether the topology holds a node with this id; transit cells are
    /// held by every topology.
    pub open spec fn has_node(self, id: NodeId) -> bool {
        id is Transit || exists|k: int| 0 <= k < self.nodes@.len() && self.nodes@[k].id == id
    }

    /// Where a node stands.
    pub fn position(&self, node: NodeId) -> (r: GridPosition)
        requires
            self.has_node(node),
        ensures
            r == position_in(self.nodes@, node),
    {
        self.position_or_origin(node)
    }

    /// Where a node stands, or the origin for a node the topology lacks.
    pub fn position_or_origin(&self, node: NodeId) -> (r: GridPosition)
        ensures
            r == position_in(self.nodes@, node),
    {
        match node {
            NodeId::Transit(p) => p,
            _ => {
                let mut k: usize = 0;
                while k < self.nodes.len()
                    invariant
                        k <= self.nodes@.len(),
                        !(node is Transit),
                        forall|j: int| 0 <= j < k ==> self.nodes@[j].id != node,
                    decreases self.nodes@.len() - k,
                {
                    if self.nodes[k].id == node {
                        proof {
                            let nodes = self.nodes@;
                            assert(exists|m: int| 0 <= m < nodes.len() && nodes[m].id == node);
                            assert(0 <= k && k < nodes.len() && nodes[k as int].id == node && forall|j: int| 0 <= j < k ==> nodes[j].id != node);
                            let c = choose|m: int| 0 <= m < nodes.len() && nodes[m].id == node && forall|j: int| 0 <= j < m ==> nodes[j].id != node;
                            assert(0 <= c < nodes.len() && nodes[c].id == node && forall|j: int| 0 <= j < c ==> nodes[j].id != node);
                            if c < k {
                                assert(nodes[c].id != node);
                            } else if c > k {
                                assert(nodes[k as int].id != node);
                            }
                            assert(c == k);
                            assert(node_index_of(nodes, node) == Some(k as int));
                            assert(!(node is Transit));
                            assert(position_in(nodes, node) == nodes[k as int].position);
                        }
                        return self.nodes[k].position;
                    }
                    k = k + 1;
                }
                GridPosition { x: 0, y: 0 }
            },
        }
    }

    /// Renames a node, keeping its cell; returns the cell, or `None` when the
    /// topology lacks the node. Remembered routes are dropped.
    pub fn replace_node_id(&mut self, current: NodeId, replacement: NodeId) -> (r: Option<GridPosition>)
        ensures
            final(self).width == old(self).width,
            final(self).height == old(self).height,
            final(self).blocked@ == old(self).blocked@,
            final(self).obstacles@ == old(self).obstacles@,
            final(self).nodes@.len() == old(self).nodes@.len(),
            r is None <==> node_index_of(old(self).nodes@, current) is None,
            r is None ==> final(self).nodes@ == old(self).nodes@ && final(self).route_cache@ == old(self).route_cache@,
            r matches Some(p) ==> ({
                let k = node_index_of(old(self).nodes@, current)->0;
                &&& p == old(self).nodes@[k].position
                &&& final(self).nodes@ == old(self).nodes@.update(k, TopologyNode { id: replacement, position: p })
                &&& final(self).route_cache_len() == 0
            }),
            old(self).cache_wf() ==> final(self).cache_wf(),
    {
        let mut k: usize = 0;
        while k < self.nodes.len()
            invariant
                k <= self.nodes@.len(),
                self.nodes@ == old(self).nodes@,
                self.width == old(self).width,
                self.height == old(self).height,
                self.blocked@ == old(self).blocked@,
                self.obstacles@ == old(self).obstacles@,
                self.route_cache@ == old(self).route_cache@,
                forall|j: int| 0 <= j < k ==> self.nodes@[j].id != current,
            decreases self.nodes@.len() - k,
        {
            if self.nodes[k].id == current {
                proof {
                    lemma_first_index(self.nodes@, current, k as int);
                }
                let position = self.nodes[k].position;
                self.nodes.set(k, TopologyNode { id: replacement, position });
                self.route_cache = Vec::new();
                return Some(position);
            }
            k = k + 1;
        }
        proof {
            if old(self).cache_wf() {
                lemma_same_grid_cache(*old(self), *self);
            }
        }
        None
    }

    /// Places a node at a cell unless a node with its id exists; returns
    /// whether it was placed. Remembered routes are dropped.
    pub fn insert_node(&mut self, id: NodeId, position: GridPosition) -> (r: bool)
        ensures
            final(self).width == old(self).width,
            final(self).height == old(self).height,
            final(self).blocked@ == old(self).blocked@,
            final(self).obstacles@ == old(self).obstacles@,
            r ==> final(self).nodes@ == old(self).nodes@.push(TopologyNode { id, position }),
            !r ==> final(self).nodes@ == old(self).nodes@,
            r ==> final(self).route_cache_len() == 0,
            r == !(exists|k: int| 0 <= k < old(self).nodes@.len() && old(self).nodes@[k].id == id),
            old(self).cache_wf() ==> final(self).cache_wf(),
    {
        let mut k: usize = 0;
        while k < self.nodes.len()
            invariant
                k <= self.nodes@.len(),
                self.nodes@ == old(self).nodes@,
                self.width == old(self).width,
                self.height == old(self).height,
                self.blocked@ == old(self).blocked@,
                self.obstacles@ == old(self).obstacles@,
                forall|j: int| 0 <= j < k ==> self.nodes@[j].id != id,
            decreases self.nodes@.len() - k,
        {
            if self.nodes[k].id == id {
                return false;
            }
            k = k + 1;
        }
        self.nodes.push(TopologyNode { id, position });
        self.route_cache = Vec::new();
        true
    }

    /// Blocks a cell; remembered routes are dropped when it was open.
    pub fn block(&mut self, position: GridPosition)
        ensures
            final(self).blocked@.contains(position),
            final(self).nodes@ == old(self).nodes@,
            !old(self).blocked@.contains(position) ==> final(self).route_cache_len() == 0,
            old(self).blocked@.contains(position) ==> final(self).blocked@ == old(self).blocked@
                && final(self).route_cache@ == old(self).route_cache@,
            old(self).cache_wf() ==> final(self).cache_wf(),
    {
        if insert_position(&mut self.blocked, position) {
            self.route_cache = Vec::new();
        } else {
            proof {
                if old(self).cache_wf() {
                    lemma_same_grid_cache(*old(self), *self);
                }
            }
        }
        assert(self.blocked@.contains(position) || self.blocked@[self.blocked@.len() - 1] == position);
    }

    /// Opens a cell; remembered routes are dropped when it was blocked.
    pub fn unblock(&mut self, position: GridPosition)
        ensures
            !final(self).blocked@.contains(position),
            final(self).nodes@ == old(self).nodes@,
            old(self).blocked@.contains(position) ==> final(self).route_cache_len() == 0,
            !old(self).blocked@.contains(position) ==> final(self).blocked@ == old(self).blocked@
                && final(self).route_cache@ == old(self).route_cache@,
            old(self).cache_wf() ==> final(self).cache_wf(),
    {
        if remove_position(&mut self.blocked, position) {
            self.route_cache = Vec::new();
        } else {
            proof {
                if old(self).cache_wf() {
                    lemma_same_grid_cache(*old(self), *self);
                }
            }
        }
    }

    /// Opens a cell without forgetting remembered routes, which stay routes
    /// when a cell opens.
    pub fn release(&mut self, position: GridPosition)
        ensures
            !final(self).blocked@.contains(position),
            forall|q: GridPosition| q != position ==> (final(self).blocked@.contains(q) <==> old(self).blocked@.contains(q)),
            final(self).nodes@ == old(self).nodes@,
            final(self).width == old(self).width,
            final(self).height == old(self).height,
            final(self).obstacles@ == old(self).obstacles@,
            old(self).cache_wf() ==> final(self).cache_wf(),
    {
        let ghost before = *self;
        remove_position(&mut self.blocked, position);
        proof {
            if before.cache_wf() {
                lemma_same_grid_cache(before, *self);
            }
        }
    }

    pub fn in_bounds(&self, p: GridPosition) -> (r: bool)
        ensures
            r == (0 <= p.x < self.width && 0 <= p.y < self.height),
    {
        p.x >= 0 && p.y >= 0 && p.x < self.width && p.y < self.height
    }

    /// Whether the cell at an offset from `p` is a neighbor of `p` inside
    /// the world and open.
    pub open spec fn open_offset(self, p: GridPosition, dx: int, dy: int) -> bool {
        &&& -1 <= dx <= 1
        &&& -1 <= dy <= 1
        &&& !(dx == 0 && dy == 0)
        &&& 0 <= p.x + dx < self.width
        &&& 0 <= p.y + dy < self.height
        &&& !self.blocked@.contains(GridPosition { x: (p.x + dx) as i32, y: (p.y + dy) as i32 })
    }

    /// Whether some cell around the node is inside the world and open.
    pub fn has_transfer_access(&self, node: NodeId) -> (r: bool)
        ensures
            r == exists|dx: int, dy: int| #[trigger] self.open_offset(position_in(self.nodes@, node), dx, dy),
    {
        let target = self.position_or_origin(node);
        let mut dy: i32 = -1;
        while dy <= 1
            invariant
                -1 <= dy <= 2,
                target == position_in(self.nodes@, node),
                forall|ex: int, ey: int| ey < dy ==> !#[trigger] self.open_offset(target, ex, ey),
            decreases 2 - dy,
        {
            let mut dx: i32 = -1;
            while dx <= 1
                invariant
                    -1 <= dy <= 1,
                    -1 <= dx <= 2,
                    target == position_in(self.nodes@, node),
                    forall|ex: int, ey: int| (ey < dy || (ey == dy && ex < dx)) ==> !#[trigger] self.open_offset(target, ex, ey),
                decreases 2 - dx,
            {
                if !(dx == 0 && dy == 0) {
                    let x: i64 = target.x as i64 + dx as i64;
                    let y: i64 = target.y as i64 + dy as i64;
                    if x >= 0 && y >= 0 && x < self.width as i64 && y < self.height as i64 {
                        let q = GridPosition { x: x as i32, y: y as i32 };
                        if !contains_position(&self.blocked, q) {
                            assert(self.open_offset(target, dx as int, dy as int));
                            return true;
                        }
                    }
                }
                dx = dx + 1;
            }
            dy = dy + 1;
        }
        false
    }
}

/// The points of a list that can be numbered by a node index.
fn clip_points(points: &Vec<crate::content::GridPoint>) -> (r: Vec<crate::content::GridPoint>)
    ensures
        r@.len() <= u16::MAX + 1,
        points@.len() <= u16::MAX + 1 ==> r@ == points@,
{
    let mut out: Vec<crate::content::GridPoint> = Vec::new();
    let mut k: usize = 0;
    while k < points.len() && k <= u16::MAX as usize
        invariant
            k <= points@.len(),
            k <= u16::MAX + 1,
            out@ == points@.take(k as int),
        decreases points@.len() - k,
    {
        out.push(points[k]);
        k = k + 1;
        assert(out@ =~= points@.take(k as int));
    }
    proof {
        if points@.len() <= u16::MAX + 1 {
            assert(points@.take(k as int) =~= points@);
        }
    }
    out
}


/// Largest grid, in cells, that routes are searched on.
pub const MAX_ROUTE_CELLS: u64 = 4_000_000;

/// A bound on the heuristic between any two cells.
pub open spec fn heuristic_bound() -> int {
    14 * 0x1_0000_0000int
}

proof fn lemma_heuristic_bounded(a: GridPosition, b: GridPosition)
    ensures
        0 <= heuristic_spec(a, b) <= heuristic_bound(),
{
}

/// The entry of a row-major grid for a cell.
pub open spec fn cell_at<T>(s: Seq<T>, width: int, p: GridPosition) -> T {
    s[p.y * width + p.x]
}

proof fn lemma_cell_index_bounds(width: int, height: int, p: GridPosition)
    requires
        0 <= p.x < width,
        0 <= p.y < height,
    ensures
        0 <= p.y * width + p.x < width * height,
{
    assert(p.y * width + p.x < width * height) by (nonlinear_arith)
        requires
            0 <= p.x < width,
            0 <= p.y < height,
    ;
    assert(0 <= p.y * width) by (nonlinear_arith)
        requires
            0 <= p.y,
            0 < width,
    ;
}

proof fn lemma_cell_index_unique(width: int, height: int, a: GridPosition, b: GridPosition)
    requires
        0 <= a.x < width,
        0 <= a.y < height,
        0 <= b.x < width,
        0 <= b.y < height,
        a.y * width + a.x == b.y * width + b.x,
    ensures
        a == b,
{
    if a.y > b.y {
        assert(a.y * width >= b.y * width + width) by (nonlinear_arith)
            requires
                a.y >= b.y + 1,
                width > 0,
        ;
    } else if a.y < b.y {
        assert(b.y * width >= a.y * width + width) by (nonlinear_arith)
            requires
                b.y >= a.y + 1,
                width > 0,
        ;
    }
    assert(a.y == b.y);
    assert(a.x == b.x);
}

/// Routes depend on the grid alone, not on what a topology remembers.
proof fn lemma_same_grid_routes(a: Topology, b: Topology, route: Seq<NodeId>, from: NodeId, target: NodeId)
    requires
        a.width == b.width,
        a.height == b.height,
        a.nodes@ == b.nodes@,
        forall|p: GridPosition| b.blocked@.contains(p) ==> a.blocked@.contains(p),
        a.names_route(route, from, target),
    ensures
        b.names_route(route, from, target),
{
    let start = position_in(a.nodes@, from);
    let end = position_in(a.nodes@, target);
    let cells = choose|cells: Seq<GridPosition>| #[trigger] a.is_route(cells, start, end)
        && route == cells.map_values(|c: GridPosition| a.route_node_spec(c, start, end, from, target));
    assert forall|i: int| 0 <= i < cells.len() - 1 implies #[trigger] b.route_step_at(cells, i, start, end) by {
        assert(a.route_step_at(cells, i, start, end));
        let p = cells[i];
        let q = cells[i + 1];
        assert(a.walkable_spec(q, start, end) ==> b.walkable_spec(q, start, end));
        assert(a.walkable_spec(GridPosition { x: q.x, y: p.y }, start, end) ==> b.walkable_spec(GridPosition { x: q.x, y: p.y }, start, end));
        assert(a.walkable_spec(GridPosition { x: p.x, y: q.y }, start, end) ==> b.walkable_spec(GridPosition { x: p.x, y: q.y }, start, end));
    }
    assert(b.is_route(cells, start, end));
    assert(cells.map_values(|c: GridPosition| a.route_node_spec(c, start, end, from, target))
        =~= cells.map_values(|c: GridPosition| b.route_node_spec(c, start, end, from, target)));
}

/// What a topology remembers stays true while its grid stays the same.
proof fn lemma_same_grid_cache(a: Topology, b: Topology)
    requires
        a.width == b.width,
        a.height == b.height,
        a.nodes@ == b.nodes@,
        forall|p: GridPosition| b.blocked@.contains(p) ==> a.blocked@.contains(p),
        a.route_cache@ == b.route_cache@,
        a.cache_wf(),
    ensures
        b.cache_wf(),
{
    assert forall|k: int| 0 <= k < b.route_cache@.len() && (#[trigger] b.route_cache@[k]).2 is Some
        implies b.names_route((b.route_cache@[k].2->0)@, b.route_cache@[k].0, b.route_cache@[k].1) by {
        let e = a.route_cache@[k];
        lemma_same_grid_routes(a, b, (e.2->0)@, e.0, e.1);
    }
}

impl Topology {
    /// Whether a route between `start` and `end` may enter a cell: inside the
    /// grid, and an endpoint or not blocked.
    pub open spec fn walkable_spec(self, p: GridPosition, start: GridPosition, end: GridPosition) -> bool {
        &&& 0 <= p.x < self.width
        &&& 0 <= p.y < self.height
        &&& (p == start || p == end || !self.blocked@.contains(p))
    }

    /// Whether a route may move from `a` to `b` in one step: to one of the
    /// eight neighbouring cells, open, and, on a diagonal, past at least one
    /// open cell beside the corner.
    pub open spec fn route_step(self, a: GridPosition, b: GridPosition, start: GridPosition, end: GridPosition) -> bool {
        let dx = b.x - a.x;
        let dy = b.y - a.y;
        &&& -1 <= dx <= 1
        &&& -1 <= dy <= 1
        &&& !(dx == 0 && dy == 0)
        &&& self.walkable_spec(b, start, end)
        &&& (dx != 0 && dy != 0 ==> (self.walkable_spec(GridPosition { x: b.x, y: a.y }, start, end)
            || self.walkable_spec(GridPosition { x: a.x, y: b.y }, start, end)))
    }

    pub open spec fn route_step_at(self, cells: Seq<GridPosition>, i: int, start: GridPosition, end: GridPosition) -> bool {
        self.route_step(cells[i], cells[i + 1], start, end)
    }

    /// Whether cells lead from `start` to `end` by route steps.
    pub open spec fn is_route(self, cells: Seq<GridPosition>, start: GridPosition, end: GridPosition) -> bool {
        &&& cells.len() >= 1
        &&& cells[0] == start
        &&& cells.last() == end
        &&& forall|i: int| 0 <= i < cells.len() - 1 ==> #[trigger] self.route_step_at(cells, i, start, end)
    }

    /// The node a route names at a cell: the endpoints as themselves, the road
    /// where it stands, and a transit cell elsewhere.
    pub open spec fn route_node_spec(self, p: GridPosition, start: GridPosition, end: GridPosition, from: NodeId, target: NodeId) -> NodeId {
        if p == start {
            from
        } else if p == end {
            target
        } else if exists|k: int| 0 <= k < self.nodes@.len() && self.nodes@[k].position == p && self.nodes@[k].id == NodeId::Road {
            NodeId::Road
        } else {
            NodeId::Transit(p)
        }
    }

    /// Whether a list of nodes is a route from `from` to `target`: the nodes
    /// named at the cells of a walk of route steps between their cells.
    pub open spec fn names_route(self, route: Seq<NodeId>, from: NodeId, target: NodeId) -> bool {
        let start = position_in(self.nodes@, from);
        let end = position_in(self.nodes@, target);
        exists|cells: Seq<GridPosition>| #[trigger] self.is_route(cells, start, end)
            && route == cells.map_values(|c: GridPosition| self.route_node_spec(c, start, end, from, target))
    }

    /// Every remembered route is a route of the topology as it stands.
    pub open spec fn cache_wf(self) -> bool {
        forall|k: int| 0 <= k < self.route_cache@.len() && (#[trigger] self.route_cache@[k]).2 is Some
            ==> self.names_route((self.route_cache@[k].2->0)@, self.route_cache@[k].0, self.route_cache@[k].1)
    }
}

/// What an A* search works on: the grid's shape, which cells are blocked, and
/// the endpoints.
struct SearchGrid {
    width: i32,
    height: i32,
    blocked: Vec<bool>,
    start: GridPosition,
    end: GridPosition,
}

impl SearchGrid {
    spec fn wf(self) -> bool {
        &&& self.width > 0
        &&& self.height > 0
        &&& self.width * self.height <= MAX_ROUTE_CELLS
        &&& self.blocked@.len() == self.width * self.height
    }

    spec fn cells(self) -> int {
        self.width * self.height
    }

    spec fn inside(self, x: int, y: int) -> bool {
        0 <= x < self.width && 0 <= y < self.height
    }

    /// Whether the search may enter the cell at (x, y).
    spec fn open_xy(self, x: int, y: int) -> bool {
        &&& self.inside(x, y)
        &&& ((x == self.start.x && y == self.start.y) || (x == self.end.x && y == self.end.y)
            || !self.blocked@[y * self.width + x])
    }

    spec fn open_cell(self, p: GridPosition) -> bool {
        self.open_xy(p.x as int, p.y as int)
    }

    spec fn step(self, a: GridPosition, b: GridPosition) -> bool {
        let dx = b.x - a.x;
        let dy = b.y - a.y;
        &&& -1 <= dx <= 1
        &&& -1 <= dy <= 1
        &&& !(dx == 0 && dy == 0)
        &&& self.open_cell(b)
        &&& (dx != 0 && dy != 0 ==> (self.open_cell(GridPosition { x: b.x, y: a.y })
            || self.open_cell(GridPosition { x: a.x, y: b.y })))
    }

    /// The grid is the topology's, searched between its endpoints.
    spec fn matches(self, topology: Topology) -> bool {
        &&& self.width == topology.width
        &&& self.height == topology.height
        &&& forall|p: GridPosition| #[trigger] self.open_cell(p) == topology.walkable_spec(p, self.start, self.end)
    }

    /// Every remembered predecessor is one step from its cell.
    spec fn links_ok(self, came_from: Seq<Option<GridPosition>>) -> bool {
        forall|p: GridPosition|
            #![trigger cell_at(came_from, self.width as int, p)]
            self.inside(p.x as int, p.y as int) && cell_at(came_from, self.width as int, p) is Some
                ==> self.step(cell_at(came_from, self.width as int, p)->0, p)
    }

    /// Where following remembered predecessors from a cell leads, at most
    /// `n` times: it stops outside the grid or at a cell without one.
    spec fn trace(self, came_from: Seq<Option<GridPosition>>, p: GridPosition, n: int) -> GridPosition
        decreases n,
    {
        if n <= 0 || !self.inside(p.x as int, p.y as int) {
            p
        } else {
            match cell_at(came_from, self.width as int, p) {
                Some(q) => self.trace(came_from, q, n - 1),
                None => p,
            }
        }
    }

    spec fn back_step(self, cells: Seq<GridPosition>, k: int) -> bool {
        self.step(cells[k + 1], cells[k])
    }

    fn index(&self, x: i64, y: i64) -> (r: usize)
        requires
            self.wf(),
            self.inside(x as int, y as int),
        ensures
            r == y * self.width + x,
            r < self.cells(),
    {
        proof {
            lemma_cell_index_bounds(self.width as int, self.height as int, GridPosition { x: x as i32, y: y as i32 });
        }
        (y * self.width as i64 + x) as usize
    }

    fn walkable(&self, x: i64, y: i64) -> (r: bool)
        requires
            self.wf(),
        ensures
            r == self.open_xy(x as int, y as int),
    {
        if x < 0 || y < 0 || x >= self.width as i64 || y >= self.height as i64 {
            return false;
        }
        if (x == self.start.x as i64 && y == self.start.y as i64) || (x == self.end.x as i64 && y == self.end.y as i64) {
            return true;
        }
        let k = self.index(x, y);
        !self.blocked[k]
    }
}

/// The column step of the `d`th move in search order.
spec fn dir_dx(d: int) -> int {
    if d == 0 || d == 4 || d == 5 { 1 } else if d == 2 || d == 6 || d == 7 { -1 } else { 0 }
}

/// The row step of the `d`th move in search order.
spec fn dir_dy(d: int) -> int {
    if d == 1 || d == 4 || d == 6 { 1 } else if d == 3 || d == 5 || d == 7 { -1 } else { 0 }
}

/// The cost of the `d`th move: ten straight, fourteen diagonal.
spec fn dir_cost(d: int) -> int {
    if dir_dx(d) != 0 && dir_dy(d) != 0 { 14 } else { 10 }
}

/// The eight moves in search order, with their costs: the straight ones first.
fn direction(d: usize) -> (r: (i64, i64, u64))
    requires
        d < 8,
    ensures
        -1 <= r.0 <= 1,
        -1 <= r.1 <= 1,
        !(r.0 == 0 && r.1 == 0),
        r.0 == dir_dx(d as int),
        r.1 == dir_dy(d as int),
        r.2 == dir_cost(d as int),
        r.2 == (if r.0 != 0 && r.1 != 0 { 14int } else { 10int }),
{
    if d == 0 { (1, 0, 10) } else if d == 1 { (0, 1, 10) } else if d == 2 { (-1, 0, 10) } else if d == 3 { (0, -1, 10) }
    else if d == 4 { (1, 1, 14) } else if d == 5 { (1, -1, 14) } else if d == 6 { (-1, 1, 14) } else { (-1, -1, 14) }
}

/// What the search knows of a cell's cost: its entry inside the grid, zero
/// at a start outside it, and `u64::MAX` elsewhere.
fn cost_of(grid: &SearchGrid, cost: &Vec<u64>, x: i32, y: i32) -> (r: u64)
    requires
        grid.wf(),
        cost@.len() == grid.cells(),
    ensures
        grid.inside(x as int, y as int) ==> r == cost@[y * grid.width + x],
        !grid.inside(x as int, y as int) ==> r == (if x == grid.start.x && y == grid.start.y { 0 } else { u64::MAX }),
{
    if x >= 0 && y >= 0 && x < grid.width && y < grid.height {
        cost[grid.index(x as i64, y as i64)]
    } else if x == grid.start.x && y == grid.start.y {
        0
    } else {
        u64::MAX
    }
}

spec fn costs_bounded(cost: Seq<u64>, bound: int) -> bool {
    forall|i: int| 0 <= i < cost.len() ==> cost[i] == u64::MAX || cost[i] <= bound
}

spec fn entries_bounded(open: Seq<(u64, u64, i32, i32)>) -> bool {
    forall|j: int| 0 <= j < open.len() ==> open[j].1 <= heuristic_bound()
}

/// Pops the open entry that orders first by estimate, heuristic, row and
/// column.
fn pop_min(open: &mut Vec<(u64, u64, i32, i32)>) -> (r: (u64, u64, i32, i32))
    requires
        old(open)@.len() > 0,
        entries_bounded(old(open)@),
    ensures
        final(open)@.len() == old(open)@.len() - 1,
        entries_bounded(final(open)@),
        r.1 <= heuristic_bound(),
{
    let mut best: usize = 0;
    let mut k: usize = 1;
    while k < open.len()
        invariant
            1 <= k <= open@.len(),
            best < open@.len(),
        decreases open@.len() - k,
    {
        let a = open[k];
        let b = open[best];
        if a.0 < b.0 || (a.0 == b.0 && (a.1 < b.1 || (a.1 == b.1 && (a.2 < b.2 || (a.2 == b.2 && a.3 < b.3))))) {
            best = k;
        }
        k = k + 1;
    }
    open.swap_remove(best)
}

/// Offers the neighbour of `current` in direction `d` a cheaper cost through
/// `current`, remembering `current` as its predecessor.
fn relax(
    grid: &SearchGrid,
    cost: &mut Vec<u64>,
    came_from: &mut Vec<Option<GridPosition>>,
    open: &mut Vec<(u64, u64, i32, i32)>,
    current: GridPosition,
    current_cost: u64,
    d: usize,
    limit: u64,
)
    requires
        grid.wf(),
        d < 8,
        old(cost)@.len() == grid.cells(),
        old(came_from)@.len() == grid.cells(),
        current_cost + 14 <= limit <= 0x1_0000_0000_0000,
        costs_bounded(old(cost)@, limit as int),
        entries_bounded(old(open)@),
        grid.links_ok(old(came_from)@),
    ensures
        final(cost)@.len() == grid.cells(),
        final(came_from)@.len() == grid.cells(),
        costs_bounded(final(cost)@, limit as int),
        entries_bounded(final(open)@),
        grid.links_ok(final(came_from)@),
        // either nothing changes, or the neighbour in direction `d` gets the
        // cheaper cost through `current`, `current` as its predecessor, and an
        // open entry
        (final(cost)@ == old(cost)@ && final(came_from)@ == old(came_from)@ && final(open)@ == old(open)@)
            || exists|b: GridPosition| #![trigger grid.step(current, b)] {
                let i = b.y * grid.width + b.x;
                let c = current_cost + dir_cost(d as int);
                &&& b.x == current.x + dir_dx(d as int)
                &&& b.y == current.y + dir_dy(d as int)
                &&& grid.step(current, b)
                &&& old(cost)@[i] > c
                &&& final(cost)@ == old(cost)@.update(i, c as u64)
                &&& final(came_from)@ == old(came_from)@.update(i, Some(current))
                &&& final(open)@ == old(open)@.push(((c + heuristic_spec(b, grid.end)) as u64,
                        heuristic_spec(b, grid.end) as u64, b.y, b.x))
            },
        // the neighbour in direction `d`, when open, costs no more than the
        // way through `current`; when closed, nothing changes
        forall|b: GridPosition| b.x == current.x + dir_dx(d as int) && b.y == current.y + dir_dy(d as int) ==> {
            &&& grid.step(current, b) ==> final(cost)@[b.y * grid.width + b.x] <= current_cost + dir_cost(d as int)
            &&& !grid.step(current, b) ==> final(cost)@ == old(cost)@ && final(came_from)@ == old(came_from)@
                && final(open)@ == old(open)@
        },
{
    let (dx, dy, step) = direction(d);
    let nx: i64 = current.x as i64 + dx;
    let ny: i64 = current.y as i64 + dy;
    let open_cell = if dx == 0 || dy == 0 {
        grid.walkable(nx, ny)
    } else {
        grid.walkable(nx, ny) && (grid.walkable(nx, current.y as i64) || grid.walkable(current.x as i64, ny))
    };
    proof {
        assert forall|b: GridPosition| b.x == current.x + dir_dx(d as int) && b.y == current.y + dir_dy(d as int)
            implies (grid.step(current, b) == open_cell) by {
            assert(b.x == nx && b.y == ny);
        }
    }
    if open_cell {
        let candidate_cost = current_cost + step;
        let i = grid.index(nx, ny);
        if cost[i] > candidate_cost {
            let neighbor = GridPosition { x: nx as i32, y: ny as i32 };
            assert(grid.step(current, neighbor));
            let ghost before = came_from@;
            cost.set(i, candidate_cost);
            came_from.set(i, Some(current));
            proof {
                let w = grid.width as int;
                let h = grid.height as int;
                assert forall|p: GridPosition|
                    grid.inside(p.x as int, p.y as int) && cell_at(came_from@, w, p) is Some
                    implies grid.step(cell_at(came_from@, w, p)->0, p) by {
                    lemma_cell_index_bounds(w, h, p);
                    if p.y * w + p.x == i {
                        lemma_cell_index_unique(w, h, p, neighbor);
                    } else {
                        assert(cell_at(came_from@, w, p) == cell_at(before, w, p));
                    }
                }
            }
            let nh = heuristic(neighbor, grid.end);
            proof {
                lemma_heuristic_bounded(neighbor, grid.end);
            }
            open.push((candidate_cost + nh, nh, neighbor.y, neighbor.x));
            proof {
                assert(neighbor.x == current.x + dir_dx(d as int) && neighbor.y == current.y + dir_dy(d as int));
                assert forall|b: GridPosition| b.x == current.x + dir_dx(d as int) && b.y == current.y + dir_dy(d as int)
                    implies b == neighbor by {}
            }
        } else {
            proof {
                assert forall|b: GridPosition| b.x == current.x + dir_dx(d as int) && b.y == current.y + dir_dy(d as int)
                    implies b.y * grid.width + b.x == i by {}
            }
        }
    }
}

impl Topology {
    /// The grid a route between two cells is searched on, or `None` for an
    /// empty or oversized grid.
    fn search_grid(&self, start: GridPosition, end: GridPosition) -> (r: Option<SearchGrid>)
        ensures
            r matches Some(g) ==> g.wf() && g.start == start && g.end == end && g.matches(*self),
            r is None <==> (self.width <= 0 || self.height <= 0 || self.width * self.height > MAX_ROUTE_CELLS),
    {
        if self.width <= 0 || self.height <= 0 {
            return None;
        }
        assert(self.width * self.height < 0x4000_0000_0000_0000) by (nonlinear_arith)
            requires
                0 < self.width < 0x8000_0000,
                0 < self.height < 0x8000_0000,
        ;
        let cells_wide: u64 = self.width as u64 * self.height as u64;
        if cells_wide > MAX_ROUTE_CELLS {
            return None;
        }
        let cells = cells_wide as usize;
        let mut blocked: Vec<bool> = Vec::new();
        let mut k: usize = 0;
        while k < cells
            invariant
                k <= cells,
                blocked@.len() == k,
                forall|j: int| 0 <= j < k ==> !blocked@[j],
            decreases cells - k,
        {
            blocked.push(false);
            k = k + 1;
        }
        let mut grid = SearchGrid { width: self.width, height: self.height, blocked, start, end };
        let ghost w = self.width as int;
        let ghost h = self.height as int;
        proof {
            assert forall|p: GridPosition| #![trigger cell_at(grid.blocked@, w, p)]
                grid.inside(p.x as int, p.y as int)
                implies cell_at(grid.blocked@, w, p) == (exists|j: int| 0 <= j < 0 && self.blocked@[j] == p) by {
                lemma_cell_index_bounds(w, h, p);
            }
        }
        let mut b: usize = 0;
        while b < self.blocked.len()
            invariant
                grid.wf(),
                grid.width == self.width,
                grid.height == self.height,
                w == self.width,
                h == self.height,
                grid.start == start,
                grid.end == end,
                b <= self.blocked@.len(),
                forall|p: GridPosition| #![trigger cell_at(grid.blocked@, w, p)]
                    grid.inside(p.x as int, p.y as int)
                    ==> cell_at(grid.blocked@, w, p) == (exists|j: int| 0 <= j < b && self.blocked@[j] == p),
            decreases self.blocked@.len() - b,
        {
            let q = self.blocked[b];
            let ghost before = grid.blocked@;
            let inside = q.x >= 0 && q.y >= 0 && q.x < self.width && q.y < self.height;
            if inside {
                let i = grid.index(q.x as i64, q.y as i64);
                grid.blocked.set(i, true);
            }
            proof {
                assert forall|p: GridPosition| #![trigger cell_at(grid.blocked@, w, p)]
                    grid.inside(p.x as int, p.y as int)
                    implies cell_at(grid.blocked@, w, p) == (exists|j: int| 0 <= j < b + 1 && self.blocked@[j] == p) by {
                    lemma_cell_index_bounds(w, h, p);
                    if p == q {
                        assert(self.blocked@[b as int] == p);
                    } else {
                        if inside && p.y * w + p.x == q.y * w + q.x {
                            lemma_cell_index_unique(w, h, p, q);
                        }
                        assert(cell_at(grid.blocked@, w, p) == cell_at(before, w, p));
                        if exists|j: int| 0 <= j < b + 1 && self.blocked@[j] == p {
                            let j = choose|j: int| 0 <= j < b + 1 && self.blocked@[j] == p;
                            assert(j != b);
                        }
                    }
                }
            }
            b = b + 1;
        }
        proof {
            assert forall|p: GridPosition| #[trigger] grid.open_cell(p) == self.walkable_spec(p, start, end) by {
                if grid.inside(p.x as int, p.y as int) {
                    assert(cell_at(grid.blocked@, w, p) == grid.blocked@[p.y * w + p.x]);
                    assert((exists|j: int| 0 <= j < b && self.blocked@[j] == p) == self.blocked@.contains(p));
                }
            }
        }
        Some(grid)
    }

    /// The node at a cell of a route: the endpoints as themselves, the road
    /// where the route crosses it, and a transit cell elsewhere.
    fn route_node(&self, p: GridPosition, start: GridPosition, end: GridPosition, from: NodeId, target: NodeId) -> (r: NodeId)
        ensures
            r == self.route_node_spec(p, start, end, from, target),
    {
        if p == start {
            return from;
        }
        if p == end {
            return target;
        }
        let mut k: usize = 0;
        while k < self.nodes.len()
            invariant
                k <= self.nodes@.len(),
                p != start,
                p != end,
                forall|j: int| 0 <= j < k ==> !(self.nodes@[j].position == p && self.nodes@[j].id == NodeId::Road),
            decreases self.nodes@.len() - k,
        {
            if self.nodes[k].position == p && self.nodes[k].id == NodeId::Road {
                return NodeId::Road;
            }
            k = k + 1;
        }
        NodeId::Transit(p)
    }

    /// An A* route from one node to another over open cells, moving in eight
    /// directions without cutting both sides of a corner; straight steps cost
    /// ten and diagonal ones fourteen. Ties are broken by heuristic, then by
    /// row, then by column, so the route is deterministic.
    fn compute_path(&self, from: NodeId, target: NodeId) -> (r: Option<Vec<NodeId>>)
        ensures
            r matches Some(route) ==> self.names_route(route@, from, target),
    {
        let start = self.position_or_origin(from);
        let end = self.position_or_origin(target);
        let grid = match self.search_grid(start, end) {
            Some(g) => g,
            None => return None,
        };
        let cells = grid.blocked.len();
        let mut cost: Vec<u64> = Vec::new();
        let mut came_from: Vec<Option<GridPosition>> = Vec::new();
        let mut k: usize = 0;
        while k < cells
            invariant
                k <= cells,
                cells == grid.cells(),
                cost@.len() == k,
                came_from@.len() == k,
                forall|j: int| 0 <= j < k ==> cost@[j] == u64::MAX,
                forall|j: int| 0 <= j < k ==> came_from@[j] is None,
            decreases cells - k,
        {
            cost.push(u64::MAX);
            came_from.push(None);
            k = k + 1;
        }
        if start.x >= 0 && start.y >= 0 && start.x < grid.width && start.y < grid.height {
            let i = grid.index(start.x as i64, start.y as i64);
            cost.set(i, 0);
        }
        let start_heuristic = heuristic(start, end);
        proof {
            lemma_heuristic_bounded(start, end);
        }
        let mut open: Vec<(u64, u64, i32, i32)> = Vec::new();
        open.push((start_heuristic, start_heuristic, start.y, start.x));
        proof {
            let w = grid.width as int;
            assert forall|p: GridPosition| #![trigger cell_at(came_from@, w, p)]
                grid.inside(p.x as int, p.y as int) implies cell_at(came_from@, w, p) is None by {
                lemma_cell_index_bounds(w, grid.height as int, p);
            }
        }
        let fuel: u64 = 10 * cells as u64 + 10;
        let mut iterations: u64 = 0;
        while open.len() > 0 && iterations < fuel
            invariant
                grid.wf(),
                grid.start == start,
                grid.end == end,
                grid.matches(*self),
                start == position_in(self.nodes@, from),
                end == position_in(self.nodes@, target),
                cells == grid.cells(),
                cost@.len() == cells,
                came_from@.len() == cells,
                fuel == 10 * cells + 10,
                iterations <= fuel,
                costs_bounded(cost@, 14 * iterations),
                entries_bounded(open@),
                grid.links_ok(came_from@),
            decreases fuel - iterations,
        {
            iterations = iterations + 1;
            let (estimated, h, cy, cx) = pop_min(&mut open);
            let current_cost = cost_of(&grid, &cost, cx, cy);
            if current_cost == u64::MAX {
                continue;
            }
            proof {
                if grid.inside(cx as int, cy as int) {
                    let i = cy * grid.width + cx;
                    lemma_cell_index_bounds(grid.width as int, grid.height as int, GridPosition { x: cx, y: cy });
                    assert(cost@[i] == u64::MAX || cost@[i] <= 14 * (iterations - 1));
                }
            }
            assert(current_cost <= 14 * (iterations - 1));
            if current_cost + h != estimated {
                continue;
            }
            let current = GridPosition { x: cx, y: cy };
            if current == end {
                return self.reconstruct(&grid, &came_from, from, target);
            }
            let limit: u64 = 14 * iterations;
            let mut d: usize = 0;
            while d < 8
                invariant
                    grid.wf(),
                    cells == grid.cells(),
                    cost@.len() == cells,
                    came_from@.len() == cells,
                    current_cost + 14 <= limit <= 0x1_0000_0000_0000,
                    limit == 14 * iterations,
                    costs_bounded(cost@, limit as int),
                    entries_bounded(open@),
                    grid.links_ok(came_from@),
                decreases 8 - d,
            {
                relax(&grid, &mut cost, &mut came_from, &mut open, current, current_cost, d, limit);
                d = d + 1;
            }
        }
        None
    }

    /// Follows the remembered predecessors back from the end to the start and
    /// names the cells of the walk.
    fn reconstruct(&self, grid: &SearchGrid, came_from: &Vec<Option<GridPosition>>, from: NodeId, target: NodeId) -> (r: Option<Vec<NodeId>>)
        requires
            grid.wf(),
            grid.matches(*self),
            came_from@.len() == grid.cells(),
            grid.links_ok(came_from@),
            grid.start == position_in(self.nodes@, from),
            grid.end == position_in(self.nodes@, target),
        ensures
            r matches Some(route) ==> self.names_route(route@, from, target),
            r is Some <==> grid.trace(came_from@, grid.end, came_from@.len() + 1int) == grid.start,
    {
        let start = grid.start;
        let end = grid.end;
        let ghost w = grid.width as int;
        let mut reversed: Vec<GridPosition> = Vec::new();
        reversed.push(end);
        let mut cursor = end;
        let mut steps: usize = 0;
        let limit = came_from.len();
        let mut done = false;
        while !done && steps <= limit
            invariant
                grid.wf(),
                w == grid.width,
                came_from@.len() == grid.cells(),
                grid.links_ok(came_from@),
                limit == came_from@.len(),
                limit <= MAX_ROUTE_CELLS,
                steps <= limit + 1,
                reversed@.len() >= 1,
                reversed@[0] == end,
                reversed@.last() == cursor,
                forall|k: int| 0 <= k < reversed@.len() - 1 ==> #[trigger] grid.back_step(reversed@, k),
                grid.trace(came_from@, cursor, limit + 1 - steps) == grid.trace(came_from@, end, limit + 1),
                done ==> grid.trace(came_from@, end, limit + 1) == cursor,
            decreases limit + 1 - steps, (if done { 0int } else { 1int }),
        {
            if !(cursor.x >= 0 && cursor.y >= 0 && cursor.x < grid.width && cursor.y < grid.height) {
                done = true;
            } else {
                let i = grid.index(cursor.x as i64, cursor.y as i64);
                match came_from[i] {
                    Some(previous) => {
                        assert(cell_at(came_from@, w, cursor) == came_from@[i as int]);
                        let ghost old_reversed = reversed@;
                        reversed.push(previous);
                        cursor = previous;
                        steps = steps + 1;
                        assert forall|k: int| 0 <= k < reversed@.len() - 1 implies #[trigger] grid.back_step(reversed@, k) by {
                            if k < old_reversed.len() - 1 {
                                assert(grid.back_step(old_reversed, k));
                            }
                        }
                    },
                    None => {
                        assert(cell_at(came_from@, w, cursor) == came_from@[i as int]);
                        done = true;
                    },
                }
            }
        }
        assert(grid.trace(came_from@, end, limit + 1) == cursor);
        if cursor != start {
            return None;
        }
        let n = reversed.len();
        let ghost cells = Seq::new(n as nat, |j: int| reversed@[n - 1 - j]);
        let mut path: Vec<NodeId> = Vec::new();
        let mut k: usize = n;
        while k > 0
            invariant
                k <= n,
                n == reversed@.len(),
                path@.len() == n - k,
                forall|j: int| 0 <= j < n - k ==> path@[j] == self.route_node_spec(reversed@[n - 1 - j], start, end, from, target),
            decreases k,
        {
            k = k - 1;
            let node = self.route_node(reversed[k], start, end, from, target);
            path.push(node);
        }
        proof {
            assert(cells[0] == start);
            assert(cells.last() == end);
            assert forall|i: int| 0 <= i < cells.len() - 1 implies #[trigger] self.route_step_at(cells, i, start, end) by {
                let k = n - 2 - i;
                assert(grid.back_step(reversed@, k));
                assert(cells[i] == reversed@[k + 1]);
                assert(cells[i + 1] == reversed@[k]);
                let a = cells[i];
                let b = cells[i + 1];
                assert(grid.open_cell(b));
                assert(grid.open_cell(GridPosition { x: b.x, y: a.y }) == self.walkable_spec(GridPosition { x: b.x, y: a.y }, start, end));
                assert(grid.open_cell(GridPosition { x: a.x, y: b.y }) == self.walkable_spec(GridPosition { x: a.x, y: b.y }, start, end));
            }
            assert(self.is_route(cells, start, end));
            assert(path@ =~= cells.map_values(|c: GridPosition| self.route_node_spec(c, start, end, from, target)));
        }
        Some(path)
    }

    /// Whether the `k`th remembered route is the first one kept for these
    /// endpoints.
    pub open spec fn first_cached(self, k: int, from: NodeId, target: NodeId) -> bool {
        &&& 0 <= k < self.route_cache@.len()
        &&& self.route_cache@[k].0 == from
        &&& self.route_cache@[k].1 == target
        &&& forall|j: int| 0 <= j < k ==> !(self.route_cache@[j].0 == from && self.route_cache@[j].1 == target)
    }

    /// The route between two nodes, computed once and then remembered until
    /// the topology changes. A full memory forgets its first route in node
    /// order to make room.
    pub fn path(&mut self, from: NodeId, target: NodeId) -> (r: Option<Vec<NodeId>>)
        requires
            old(self).cache_wf(),
        ensures
            final(self).cache_wf(),
            final(self).width == old(self).width,
            final(self).height == old(self).height,
            final(self).nodes@ == old(self).nodes@,
            final(self).blocked@ == old(self).blocked@,
            final(self).obstacles@ == old(self).obstacles@,
            r matches Some(route) ==> old(self).names_route(route@, from, target),
            (exists|k: int| 0 <= k < old(self).route_cache@.len() && old(self).route_cache@[k].0 == from
                && old(self).route_cache@[k].1 == target) ==> final(self).route_cache@ == old(self).route_cache@,
            !(exists|k: int| 0 <= k < old(self).route_cache@.len() && old(self).route_cache@[k].0 == from
                && old(self).route_cache@[k].1 == target) ==> {
                &&& final(self).route_cache@.len() == (if old(self).route_cache@.len() >= ROUTE_CACHE_CAPACITY {
                    old(self).route_cache@.len()
                } else {
                    old(self).route_cache@.len() + 1
                })
                &&& final(self).route_cache@.last().0 == from
                &&& final(self).route_cache@.last().1 == target
            },
            exists|k: int| #[trigger] final(self).first_cached(k, from, target)
                && route_view(final(self).route_cache@[k].2) == route_view(r),
    {
        let mut k: usize = 0;
        while k < self.route_cache.len()
            invariant
                k <= self.route_cache@.len(),
                *self == *old(self),
                self.cache_wf(),
                forall|j: int| 0 <= j < k ==> !(self.route_cache@[j].0 == from && self.route_cache@[j].1 == target),
            decreases self.route_cache@.len() - k,
        {
            if self.route_cache[k].0 == from && self.route_cache[k].1 == target {
                let cached = clone_route(&self.route_cache[k].2);
                proof {
                    let e = self.route_cache@[k as int];
                    assert(e.2 is Some ==> self.names_route((e.2->0)@, e.0, e.1));
                    assert(self.first_cached(k as int, from, target));
                }
                return cached;
            }
            k = k + 1;
        }
        let path = self.compute_path(from, target);
        if self.route_cache.len() >= ROUTE_CACHE_CAPACITY {
            let mut first: usize = 0;
            let mut j: usize = 1;
            while j < self.route_cache.len()
                invariant
                    1 <= j <= self.route_cache@.len(),
                    first < self.route_cache@.len(),
                    *self == *old(self),
                    self.cache_wf(),
                decreases self.route_cache@.len() - j,
            {
                let a = (self.route_cache[j].0, self.route_cache[j].1);
                let b = (self.route_cache[first].0, self.route_cache[first].1);
                if node_lt(a.0, b.0) || (a.0 == b.0 && node_lt(a.1, b.1)) {
                    first = j;
                }
                j = j + 1;
            }
            let ghost before = self.route_cache@;
            self.route_cache.remove(first);
            proof {
                assert forall|m: int| 0 <= m < self.route_cache@.len()
                    implies !(self.route_cache@[m].0 == from && self.route_cache@[m].1 == target) by {
                    let m2 = if m < first { m } else { m + 1 };
                    assert(self.route_cache@[m] == before[m2]);
                    assert(!(before[m2].0 == from && before[m2].1 == target));
                }
                assert forall|m: int| 0 <= m < self.route_cache@.len() && (#[trigger] self.route_cache@[m]).2 is Some
                    implies self.names_route((self.route_cache@[m].2->0)@, self.route_cache@[m].0, self.route_cache@[m].1) by {
                    let e = if m < first { before[m] } else { before[m + 1] };
                    assert(self.route_cache@[m] == e);
                    lemma_same_grid_routes(*old(self), *self, (e.2->0)@, e.0, e.1);
                }
            }
        }
        proof {
            assert forall|m: int| 0 <= m < self.route_cache@.len()
                implies !(self.route_cache@[m].0 == from && self.route_cache@[m].1 == target) by {
                if self.route_cache@.len() == old(self).route_cache@.len() {
                    assert(self.route_cache@ == old(self).route_cache@);
                    assert(!(old(self).route_cache@[m].0 == from && old(self).route_cache@[m].1 == target));
                }
            }
        }
        let kept = clone_route(&path);
        let ghost before = self.route_cache@;
        proof {
            assert forall|m: int| 0 <= m < before.len() && (#[trigger] before[m]).2 is Some
                implies old(self).names_route((before[m].2->0)@, before[m].0, before[m].1) by {
                lemma_same_grid_routes(*self, *old(self), (before[m].2->0)@, before[m].0, before[m].1);
            }
        }
        self.route_cache.push((from, target, kept));
        proof {
            assert forall|m: int| 0 <= m < self.route_cache@.len() && (#[trigger] self.route_cache@[m]).2 is Some
                implies self.names_route((self.route_cache@[m].2->0)@, self.route_cache@[m].0, self.route_cache@[m].1) by {
                if m < before.len() {
                    assert(self.route_cache@[m] == before[m]);
                    assert(before[m].2 is Some ==> old(self).names_route((before[m].2->0)@, before[m].0, before[m].1));
                }
                let e = self.route_cache@[m];
                lemma_same_grid_routes(*old(self), *self, (e.2->0)@, e.0, e.1);
            }
            let last = self.route_cache@.len() - 1;
            assert forall|j: int| 0 <= j < last implies !(self.route_cache@[j].0 == from && self.route_cache@[j].1 == target) by {
                assert(self.route_cache@[j] == before[j]);
            }
            assert(self.first_cached(last, from, target));
        }
        path
    }

    /// The next node on the route, the node itself when it already is at the
    /// end of the route, or `None` without a route.
    pub fn step_toward(&mut self, from: NodeId, target: NodeId) -> (r: Option<NodeId>)
        requires
            old(self).cache_wf(),
        ensures
            final(self).cache_wf(),
            final(self).width == old(self).width,
            final(self).height == old(self).height,
            final(self).nodes@ == old(self).nodes@,
            final(self).blocked@ == old(self).blocked@,
            final(self).obstacles@ == old(self).obstacles@,
            r matches Some(n) ==> exists|route: Seq<NodeId>| #[trigger] old(self).names_route(route, from, target)
                && n == (if route.len() > 1 { route[1] } else { from }),
            exists|k: int| #[trigger] final(self).first_cached(k, from, target)
                && r == next_on_route(route_view(final(self).route_cache@[k].2), from),
            (exists|k: int| #[trigger] old(self).first_cached(k, from, target)) ==> final(self).route_cache@ == old(self).route_cache@,
    {
        proof {
            if exists|k: int| #[trigger] old(self).first_cached(k, from, target) {
                let k = choose|k: int| #[trigger] old(self).first_cached(k, from, target);
                assert(old(self).route_cache@[k].0 == from && old(self).route_cache@[k].1 == target);
            }
        }
        match self.path(from, target) {
            Some(path) => {
                let n = if path.len() > 1 { path[1] } else { from };
                assert(old(self).names_route(path@, from, target));
                Some(n)
            },
            None => None,
        }
    }
}

/// The next step asked for right after the route is the route's second
/// node, or the start itself where the route has no other, and there is no
/// step exactly when there was no route: both answers come from the route
/// remembered for the endpoints, which the second call leaves in place.
pub proof fn law_step_follows_path(
    after_path: Topology,
    after_step: Topology,
    from: NodeId,
    target: NodeId,
    route: Option<Vec<NodeId>>,
    step: Option<NodeId>,
)
    requires
        exists|k: int| #[trigger] after_path.first_cached(k, from, target)
            && route_view(after_path.route_cache@[k].2) == route_view(route),
        after_step.route_cache@ == after_path.route_cache@,
        exists|k: int| #[trigger] after_step.first_cached(k, from, target)
            && step == next_on_route(route_view(after_step.route_cache@[k].2), from),
    ensures
        step == next_on_route(route_view(route), from),
{
    let i = choose|k: int| #[trigger] after_path.first_cached(k, from, target)
        && route_view(after_path.route_cache@[k].2) == route_view(route);
    let j = choose|k: int| #[trigger] after_step.first_cached(k, from, target)
        && step == next_on_route(route_view(after_step.route_cache@[k].2), from);
    if i < j {
        assert(!(after_step.route_cache@[i].0 == from && after_step.route_cache@[i].1 == target));
    } else if j < i {
        assert(!(after_path.route_cache@[j].0 == from && after_path.route_cache@[j].1 == target));
    }
}

/// The nodes of a remembered route, if it has one.
pub open spec fn route_view(route: Option<Vec<NodeId>>) -> Option<Seq<NodeId>> {
    match route {
        Some(v) => Some(v@),
        None => None,
    }
}

/// The step a route takes from its first node: its second node, or the
/// first one itself where the route has no other.
pub open spec fn next_on_route(route: Option<Seq<NodeId>>, from: NodeId) -> Option<NodeId> {
    match route {
        Some(nodes) => Some(if nodes.len() > 1 { nodes[1] } else { from }),
        None => None,
    }
}

fn clone_route(route: &Option<Vec<NodeId>>) -> (r: Option<Vec<NodeId>>)
    ensures
        r matches Some(p) ==> (route matches Some(q) && p@ == q@),
        r is None <==> route is None,
{
    match route {
        Some(q) => {
            let mut p: Vec<NodeId> = Vec::new();
            let mut k: usize = 0;
            while k < q.len()
                invariant
                    k <= q@.len(),
                    p@ == q@.take(k as int),
                decreases q@.len() - k,
            {
                p.push(q[k]);
                k = k + 1;
                assert(p@ =~= q@.take(k as int));
            }
            assert(q@.take(k as int) =~= q@);
            Some(p)
        },
        None => None,
    }
}

} // verus!
