//! Deployment radars: each claims one deposit at a time as the target of a
//! deployment.
use vstd::prelude::*;
use crate::alerts::AlertHistory;
use crate::content::{ItemId, RadarSpec};
use crate::dispatch::{DispatchBoard, DispatchIntent, DispatchPriority, DispatchVerb};
use crate::node::NodeId;

verus! {

#[derive(Clone, Debug)]
pub struct DeploymentRadar {
    pub node: NodeId,
    pub deployment_item: ItemId,
    pub target_item: ItemId,
    pub claimed_target: Option<NodeId>,
    pub dispatch: DispatchBoard,
    pub alerts: AlertHistory,
}

impl DeploymentRadar {
    pub fn new(node: NodeId, spec: &RadarSpec) -> (r: Self)
        ensures
            r.node == node,
            r.deployment_item == spec.deployment_item,
            r.target_item == spec.target_item,
            r.claimed_target is None,
            r.dispatch.intents@.len() == 0,
            r.alerts@.len() == 0,
    {
        DeploymentRadar {
            node,
            deployment_item: spec.deployment_item,
            target_item: spec.target_item,
            claimed_target: None,
            dispatch: DispatchBoard::new(),
            alerts: AlertHistory::new(),
        }
    }

    /// Advertises one deployment to the claimed target, or none.
    pub fn refresh_dispatch(&mut self)
        ensures
            final(self).dispatch.intents@ == (match old(self).claimed_target {
                Some(target) => seq![DispatchIntent { verb: DispatchVerb::Deploy, item: old(self).deployment_item, from: old(self).node, to: target, priority: DispatchPriority(128) }],
                None => Seq::<DispatchIntent>::empty(),
            }),
            final(self).node == old(self).node,
            final(self).deployment_item == old(self).deployment_item,
            final(self).target_item == old(self).target_item,
            final(self).claimed_target == old(self).claimed_target,
            final(self).alerts == old(self).alerts,
    {
        let mut intents: Vec<DispatchIntent> = Vec::new();
        match self.claimed_target {
            Some(target) => intents.push(DispatchIntent::deploy(self.deployment_item, self.node, target)),
            None => {},
        }
        self.dispatch = DispatchBoard { intents };
        assert(self.dispatch.intents@ =~= (match old(self).claimed_target {
            Some(target) => seq![DispatchIntent { verb: DispatchVerb::Deploy, item: old(self).deployment_item, from: old(self).node, to: target, priority: DispatchPriority(128) }],
            None => Seq::<DispatchIntent>::empty(),
        }));
    }

    pub fn snapshot(&self) -> (r: RadarSnapshot)
        ensures
            r.node == self.node,
            r.deployment_item == self.deployment_item,
            r.target_item == self.target_item,
            r.claimed_target == self.claimed_target,
            r.dispatch.intents@ == self.dispatch.intents@,
            r.alerts@ == self.alerts@,
    {
        RadarSnapshot {
            node: self.node,
            deployment_item: self.deployment_item,
            target_item: self.target_item,
            claimed_target: self.claimed_target,
            dispatch: self.dispatch.duplicate(),
            alerts: self.alerts.duplicate(),
        }
    }
}

#[derive(Clone, Debug, PartialEq, Eq)]
pub struct RadarSnapshot {
    pub node: NodeId,
    pub deployment_item: ItemId,
    pub target_item: ItemId,
    pub claimed_target: Option<NodeId>,
    pub dispatch: DispatchBoard,
    pub alerts: AlertHistory,
}

} // verus!
