//! Grid positions and the identities of world objects, with the order and
//! the names under which the simulation reports them.
use vstd::prelude::*;
use crate::text::{decimal, push_i64, push_str, push_u64, signed_decimal};

verus! {

pub type NodeIndex = u16;
pub type HaulerId = u16;

/// A cell of the world grid. Positions are ordered by `x`, then `y`.
#[derive(Copy, Clone, Debug, PartialEq, Eq, Structural, PartialOrd, Ord, Hash)]
pub struct GridPosition {
    pub x: i32,
    pub y: i32,
}

/// The identity of a world object, or of an open cell a hauler crosses.
#[derive(Copy, Clone, Debug, PartialEq, Eq, Structural, PartialOrd, Ord, Hash)]
pub enum NodeId {
    Source(NodeIndex),
    Road,
    Factory(NodeIndex),
    Generator(NodeIndex),
    Radar(NodeIndex),
    BuildSite(NodeIndex),
    Structure(NodeIndex),
    Transit(GridPosition),
}

/// Whether `a` orders before `b`: by `x`, then by `y`.
pub open spec fn position_less(a: GridPosition, b: GridPosition) -> bool {
    a.x < b.x || (a.x == b.x && a.y < b.y)
}

pub fn position_lt(a: GridPosition, b: GridPosition) -> (r: bool)
    ensures
        r == position_less(a, b),
{
    a.x < b.x || (a.x == b.x && a.y < b.y)
}

/// The variant rank of a node, in declaration order.
pub open spec fn node_tag(n: NodeId) -> int {
    match n {
        NodeId::Source(_) => 0,
        NodeId::Road => 1,
        NodeId::Factory(_) => 2,
        NodeId::Generator(_) => 3,
        NodeId::Radar(_) => 4,
        NodeId::BuildSite(_) => 5,
        NodeId::Structure(_) => 6,
        NodeId::Transit(_) => 7,
    }
}

/// Whether `a` orders before `b`: by variant, then by index or position.
pub open spec fn node_less(a: NodeId, b: NodeId) -> bool {
    if node_tag(a) != node_tag(b) {
        node_tag(a) < node_tag(b)
    } else {
        match (a, b) {
            (NodeId::Source(i), NodeId::Source(j)) => i < j,
            (NodeId::Factory(i), NodeId::Factory(j)) => i < j,
            (NodeId::Generator(i), NodeId::Generator(j)) => i < j,
            (NodeId::Radar(i), NodeId::Radar(j)) => i < j,
            (NodeId::BuildSite(i), NodeId::BuildSite(j)) => i < j,
            (NodeId::Structure(i), NodeId::Structure(j)) => i < j,
            (NodeId::Transit(p), NodeId::Transit(q)) => position_less(p, q),
            _ => false,
        }
    }
}

/// Nodes are strictly and totally ordered: no node orders before itself or
/// before one that orders before it, the order chains, and of two distinct
/// nodes one orders first.
pub proof fn lemma_node_order(a: NodeId, b: NodeId, c: NodeId)
    ensures
        !node_less(a, a),
        node_less(a, b) ==> !node_less(b, a),
        node_less(a, b) && node_less(b, c) ==> node_less(a, c),
        a != b ==> node_less(a, b) || node_less(b, a),
{
}

fn node_tag_exec(n: NodeId) -> (r: u8)
    ensures
        r == node_tag(n),
{
    match n {
        NodeId::Source(_) => 0,
        NodeId::Road => 1,
        NodeId::Factory(_) => 2,
        NodeId::Generator(_) => 3,
        NodeId::Radar(_) => 4,
        NodeId::BuildSite(_) => 5,
        NodeId::Structure(_) => 6,
        NodeId::Transit(_) => 7,
    }
}

pub fn node_lt(a: NodeId, b: NodeId) -> (r: bool)
    ensures
        r == node_less(a, b),
{
    let ta = node_tag_exec(a);
    let tb = node_tag_exec(b);
    if ta != tb {
        return ta < tb;
    }
    match (a, b) {
        (NodeId::Source(i), NodeId::Source(j)) => i < j,
        (NodeId::Factory(i), NodeId::Factory(j)) => i < j,
        (NodeId::Generator(i), NodeId::Generator(j)) => i < j,
        (NodeId::Radar(i), NodeId::Radar(j)) => i < j,
        (NodeId::BuildSite(i), NodeId::BuildSite(j)) => i < j,
        (NodeId::Structure(i), NodeId::Structure(j)) => i < j,
        (NodeId::Transit(p), NodeId::Transit(q)) => position_lt(p, q),
        _ => false,
    }
}

/// The name of a node in events and snapshots.
pub open spec fn node_text(n: NodeId) -> Seq<char> {
    match n {
        NodeId::Source(i) => "source-"@ + decimal(i as nat),
        NodeId::Road => "road"@,
        NodeId::Factory(i) => "factory-"@ + decimal(i as nat),
        NodeId::Generator(i) => "generator-"@ + decimal(i as nat),
        NodeId::Radar(i) => "radar-"@ + decimal(i as nat),
        NodeId::BuildSite(i) => "build-site-"@ + decimal(i as nat),
        NodeId::Structure(i) => "structure-"@ + decimal(i as nat),
        NodeId::Transit(p) => "transit-"@ + signed_decimal(p.x as int) + "-"@ + signed_decimal(p.y as int),
    }
}

/// Appends the name of a node.
pub fn push_node(s: &mut String, n: NodeId)
    ensures
        final(s)@ == old(s)@ + node_text(n),
{
    let ghost start = s@;
    match n {
        NodeId::Source(i) => {
            push_str(s, "source-");
            push_u64(s, i as u64);
        },
        NodeId::Road => push_str(s, "road"),
        NodeId::Factory(i) => {
            push_str(s, "factory-");
            push_u64(s, i as u64);
        },
        NodeId::Generator(i) => {
            push_str(s, "generator-");
            push_u64(s, i as u64);
        },
        NodeId::Radar(i) => {
            push_str(s, "radar-");
            push_u64(s, i as u64);
        },
        NodeId::BuildSite(i) => {
            push_str(s, "build-site-");
            push_u64(s, i as u64);
        },
        NodeId::Structure(i) => {
            push_str(s, "structure-");
            push_u64(s, i as u64);
        },
        NodeId::Transit(p) => {
            push_str(s, "transit-");
            push_i64(s, p.x as i64);
            push_str(s, "-");
            push_i64(s, p.y as i64);
        },
    }
    assert(s@ =~= start + node_text(n));
}

/// The name of a node as a string.
pub fn node_string(n: NodeId) -> (r: String)
    ensures
        r@ == node_text(n),
{
    let mut s = String::new();
    push_node(&mut s, n);
    assert(s@ =~= node_text(n));
    s
}

} // verus!
