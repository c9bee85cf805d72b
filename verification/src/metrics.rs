//! Run metrics: counters that summarise what a simulation run did.
use vstd::prelude::*;
use crate::content::{item_rank, lemma_item_rank_bijective, ItemId, ITEM_COUNT};
use crate::resources::{nonzero_prefix, ItemCounts};

verus! {

/// `a + b`, or the largest `u32` where the sum does not fit.
pub open spec fn sat_add32(a: u32, b: u32) -> u32 {
    if a + b > u32::MAX { u32::MAX } else { (a + b) as u32 }
}

#[derive(Clone, Debug, PartialEq, Eq)]
pub struct RunMetrics {
    pub ticks: u64,
    /// Units mined per item, in catalog order.
    pub mined: [u32; ITEM_COUNT],
    /// Units crafted per item, in catalog order.
    pub crafted: [u32; ITEM_COUNT],
    pub dispatches_assigned: u32,
    pub units_collected: u32,
    pub units_delivered: u32,
    pub fuel_burned: u32,
    pub energy_generated: u32,
    pub energy_balanced: u64,
    pub energy_consumed: u32,
    pub power_starvations: u32,
    pub deployments: u32,
    pub generators_deployed: u32,
    pub world_deletions: u32,
    pub idle_ticks: u64,
}

impl RunMetrics {
    /// Whether every counter is zero.
    pub open spec fn is_zero(self) -> bool {
        &&& self.ticks == 0
        &&& forall|k: int| 0 <= k < ITEM_COUNT ==> self.mined@[k] == 0 && self.crafted@[k] == 0
        &&& self.dispatches_assigned == 0
        &&& self.units_collected == 0
        &&& self.units_delivered == 0
        &&& self.fuel_burned == 0
        &&& self.energy_generated == 0
        &&& self.energy_balanced == 0
        &&& self.energy_consumed == 0
        &&& self.power_starvations == 0
        &&& self.deployments == 0
        &&& self.generators_deployed == 0
        &&& self.world_deletions == 0
        &&& self.idle_ticks == 0
    }

    pub fn default() -> (r: Self)
        ensures
            r.is_zero(),
            r.ticks == 0,
            forall|k: int| 0 <= k < ITEM_COUNT ==> r.mined@[k] == 0 && r.crafted@[k] == 0,
            r.dispatches_assigned == 0,
            r.units_collected == 0,
            r.units_delivered == 0,
            r.fuel_burned == 0,
            r.energy_generated == 0,
            r.energy_balanced == 0,
            r.energy_consumed == 0,
            r.power_starvations == 0,
            r.deployments == 0,
            r.generators_deployed == 0,
            r.world_deletions == 0,
            r.idle_ticks == 0,
    {
        RunMetrics {
            ticks: 0,
            mined: [0u32; ITEM_COUNT],
            crafted: [0u32; ITEM_COUNT],
            dispatches_assigned: 0,
            units_collected: 0,
            units_delivered: 0,
            fuel_burned: 0,
            energy_generated: 0,
            energy_balanced: 0,
            energy_consumed: 0,
            power_starvations: 0,
            deployments: 0,
            generators_deployed: 0,
            world_deletions: 0,
            idle_ticks: 0,
        }
    }

    /// Adds `quantity` mined units of `item`.
    pub fn record_mined(&mut self, item: ItemId, quantity: u32)
        ensures
            final(self).mined@ == old(self).mined@.update(item_rank(item) as int, sat_add32(old(self).mined@[item_rank(item) as int], quantity)),
            final(self).crafted == old(self).crafted,
            final(self).ticks == old(self).ticks,
    {
        proof { lemma_item_rank_bijective(item); }
        let k = item.index();
        if quantity > 0 {
            self.mined[k] = self.mined[k].saturating_add(quantity);
        } else {
            assert(self.mined@ =~= old(self).mined@.update(item_rank(item) as int, sat_add32(old(self).mined@[item_rank(item) as int], quantity)));
        }
    }

    /// Adds `quantity` crafted units of `item`.
    pub fn record_crafted(&mut self, item: ItemId, quantity: u32)
        ensures
            final(self).crafted@ == old(self).crafted@.update(item_rank(item) as int, sat_add32(old(self).crafted@[item_rank(item) as int], quantity)),
            final(self).mined == old(self).mined,
            final(self).ticks == old(self).ticks,
    {
        proof { lemma_item_rank_bijective(item); }
        let k = item.index();
        if quantity > 0 {
            self.crafted[k] = self.crafted[k].saturating_add(quantity);
        } else {
            assert(self.crafted@ =~= old(self).crafted@.update(item_rank(item) as int, sat_add32(old(self).crafted@[item_rank(item) as int], quantity)));
        }
    }

    /// The counters, with mined and crafted units listed for the items that
    /// have any.
    pub fn snapshot(&self) -> (r: RunMetricsSnapshot)
        ensures
            r.ticks == self.ticks,
            r.mined.entries@ == nonzero_prefix(self.mined@, ITEM_COUNT as nat),
            r.crafted.entries@ == nonzero_prefix(self.crafted@, ITEM_COUNT as nat),
            r.dispatches_assigned == self.dispatches_assigned,
            r.units_collected == self.units_collected,
            r.units_delivered == self.units_delivered,
            r.fuel_burned == self.fuel_burned,
            r.energy_generated == self.energy_generated,
            r.energy_balanced == self.energy_balanced,
            r.energy_consumed == self.energy_consumed,
            r.power_starvations == self.power_starvations,
            r.deployments == self.deployments,
            r.generators_deployed == self.generators_deployed,
            r.world_deletions == self.world_deletions,
            r.idle_ticks == self.idle_ticks,
    {
        RunMetricsSnapshot {
            ticks: self.ticks,
            mined: nonzero_counts_of(&self.mined),
            crafted: nonzero_counts_of(&self.crafted),
            dispatches_assigned: self.dispatches_assigned,
            units_collected: self.units_collected,
            units_delivered: self.units_delivered,
            fuel_burned: self.fuel_burned,
            energy_generated: self.energy_generated,
            energy_balanced: self.energy_balanced,
            energy_consumed: self.energy_consumed,
            power_starvations: self.power_starvations,
            deployments: self.deployments,
            generators_deployed: self.generators_deployed,
            world_deletions: self.world_deletions,
            idle_ticks: self.idle_ticks,
        }
    }
}

/// The nonzero counts of a per-item table, keyed by item.
pub fn nonzero_counts_of(counts: &[u32; ITEM_COUNT]) -> (r: ItemCounts)
    ensures
        r.entries@ == nonzero_prefix(counts@, ITEM_COUNT as nat),
{
    let mut entries: Vec<(ItemId, u32)> = Vec::new();
    let mut k: usize = 0;
    while k < ITEM_COUNT
        invariant
            k <= ITEM_COUNT,
            entries@ == nonzero_prefix(counts@, k as nat),
        decreases ITEM_COUNT - k,
    {
        if counts[k] != 0 {
            entries.push((ItemId::from_index(k), counts[k]));
        }
        k = k + 1;
    }
    ItemCounts { entries }
}

#[derive(Clone, Debug, PartialEq, Eq)]
pub struct RunMetricsSnapshot {
    pub ticks: u64,
    pub mined: ItemCounts,
    pub crafted: ItemCounts,
    pub dispatches_assigned: u32,
    pub units_collected: u32,
    pub units_delivered: u32,
    pub fuel_burned: u32,
    pub energy_generated: u32,
    pub energy_balanced: u64,
    pub energy_consumed: u32,
    pub power_starvations: u32,
    pub deployments: u32,
    pub generators_deployed: u32,
    pub world_deletions: u32,
    pub idle_ticks: u64,
}

} // verus!
