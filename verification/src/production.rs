//! Factory production: a recipe that consumes inputs from a factory's
//! inventory and, after its craft time, adds its output.
use vstd::prelude::*;
use crate::content::{item_rank, items_ordered, lemma_item_rank_bijective, ContentDatabase, ItemId, ITEM_COUNT};
use crate::resources::{Inventory, InventoryModel, ItemCounts};
use crate::text::{push_str, push_u64};

verus! {

#[derive(Clone, Debug)]
pub struct RecipeRuntime {
    /// Input quantities, ordered by item.
    pub inputs: Vec<(ItemId, u32)>,
    pub output_item: ItemId,
    pub output_quantity: u32,
    pub craft_time: u32,
}

#[derive(Copy, Clone, Debug, PartialEq, Eq, Structural)]
pub enum ProductionBlockReason {
    OutputFull,
    NoOutputSpace,
}

#[derive(Clone, Debug)]
pub struct FactoryProduction {
    pub inventory: Inventory,
    pub recipe: RecipeRuntime,
    pub output_buffer: u32,
    pub craft_progress: u32,
    pub crafting: bool,
    pub blocked: Option<ProductionBlockReason>,
}

#[derive(Clone, Debug, PartialEq, Eq)]
pub struct CraftSnapshot {
    pub inputs: ItemCounts,
    pub output_item: ItemId,
    pub output_quantity: u32,
    pub output_buffer: u32,
    pub craft_time: u32,
    pub craft_progress: u32,
    pub crafting: bool,
    pub blocked: Option<ProductionBlockReason>,
}

/// Whether the inventory holds every recipe input in its recipe quantity.
pub open spec fn inputs_ready_spec(m: InventoryModel, inputs: Seq<(ItemId, u32)>) -> bool {
    forall|k: int| 0 <= k < inputs.len() ==> m.count(#[trigger] inputs[k].0) >= inputs[k].1
}

/// The inventory after one round of recipe inputs is consumed.
pub open spec fn consumed(m: InventoryModel, inputs: Seq<(ItemId, u32)>) -> InventoryModel
    decreases inputs.len(),
{
    if inputs.len() == 0 { m } else {
        consumed(m, inputs.drop_last()).removed(inputs.last().0, inputs.last().1)
    }
}

/// Whether a craft may start: inputs are present, the output stock is below
/// the buffer, and one more unit of output fits.
pub open spec fn can_start_spec(p: FactoryProduction, content: ContentDatabase) -> bool {
    &&& inputs_ready_spec(p.inventory.model(), p.recipe.inputs@)
    &&& p.inventory.model().count(p.recipe.output_item) < p.output_buffer
    &&& p.inventory.model().max_insertable(content, p.recipe.output_item, 1) > 0
}

/// Whether `after` is what one tick of production makes of `before`,
/// having produced `produced` units.
pub open spec fn advanced_once(content: ContentDatabase, before: FactoryProduction, after: FactoryProduction, produced: u32) -> bool {
    &&& (after.recipe == before.recipe)
    &&& (after.output_buffer == before.output_buffer)
    &&& (before.crafting ==> {
            let progress = if before.craft_progress == u32::MAX { u32::MAX } else { (before.craft_progress + 1) as u32 };
            &&& after.blocked is None
            &&& if progress >= before.recipe.craft_time {
                &&& produced == before.recipe.output_quantity
                &&& !after.crafting && after.craft_progress == 0
                &&& after.inventory.model() == before.inventory.model().added(before.recipe.output_item, produced)
            } else {
                &&& produced == 0
                &&& after.crafting && after.craft_progress == progress
                &&& after.inventory == before.inventory
            }
        })
    &&& (!before.crafting && !inputs_ready_spec(before.inventory.model(), before.recipe.inputs@) ==>
            produced == 0 && after.blocked is None && !after.crafting
            && after.inventory == before.inventory && after.craft_progress == before.craft_progress)
    &&& (!before.crafting && inputs_ready_spec(before.inventory.model(), before.recipe.inputs@)
            && before.inventory.model().count(before.recipe.output_item) >= before.output_buffer ==>
            produced == 0 && after.blocked == Some(ProductionBlockReason::OutputFull) && !after.crafting
            && after.inventory == before.inventory)
    &&& (!before.crafting && inputs_ready_spec(before.inventory.model(), before.recipe.inputs@)
            && before.inventory.model().count(before.recipe.output_item) < before.output_buffer
            && before.inventory.model().max_insertable(content, before.recipe.output_item, 1) == 0 ==>
            produced == 0 && after.blocked == Some(ProductionBlockReason::NoOutputSpace) && !after.crafting
            && after.inventory == before.inventory)
    &&& (!before.crafting && can_start_spec(before, content) ==> {
            &&& after.blocked is None
            &&& if before.recipe.craft_time <= 1 {
                &&& produced == before.recipe.output_quantity
                &&& !after.crafting && after.craft_progress == 0
                &&& after.inventory.model() == consumed(before.inventory.model(), before.recipe.inputs@)
                    .added(before.recipe.output_item, produced)
            } else {
                &&& produced == 0
                &&& after.crafting && after.craft_progress == 1
                &&& after.inventory.model() == consumed(before.inventory.model(), before.recipe.inputs@)
            }
        })
}

impl FactoryProduction {
    /// The recipe lists its inputs in item order.
    pub open spec fn wf(self) -> bool {
        items_ordered(self.recipe.inputs@)
    }

    pub fn new(inventory: Inventory, recipe: RecipeRuntime, output_buffer: u32) -> (r: Self)
        ensures
            r.inventory == inventory,
            r.recipe.inputs@ == recipe.inputs@,
            r.recipe.output_item == recipe.output_item,
            r.recipe.output_quantity == recipe.output_quantity,
            r.recipe.craft_time == recipe.craft_time,
            r.output_buffer == output_buffer,
            r.craft_progress == 0,
            !r.crafting,
            r.blocked is None,
    {
        FactoryProduction { inventory, recipe, output_buffer, craft_progress: 0, crafting: false, blocked: None }
    }

    pub fn inputs_ready(&self) -> (r: bool)
        ensures
            r == inputs_ready_spec(self.inventory.model(), self.recipe.inputs@),
    {
        let mut k: usize = 0;
        while k < self.recipe.inputs.len()
            invariant
                k <= self.recipe.inputs@.len(),
                forall|j: int| 0 <= j < k ==> self.inventory.model().count(#[trigger] self.recipe.inputs@[j].0) >= self.recipe.inputs@[j].1,
            decreases self.recipe.inputs@.len() - k,
        {
            let (item, quantity) = self.recipe.inputs[k];
            if self.inventory.count(item) < quantity {
                return false;
            }
            k = k + 1;
        }
        true
    }

    pub fn can_start(&self, content: &ContentDatabase) -> (r: bool)
        requires
            content.wf(),
        ensures
            r == can_start_spec(*self, *content),
    {
        self.inputs_ready()
            && self.inventory.count(self.recipe.output_item) < self.output_buffer
            && self.inventory.max_insertable(content, self.recipe.output_item, 1) > 0
    }

    /// Whether the factory draws power this tick: while crafting, or when a
    /// craft can start.
    pub fn wants_power(&self, content: &ContentDatabase) -> (r: bool)
        requires
            content.wf(),
        ensures
            r == (self.crafting || can_start_spec(*self, *content)),
    {
        self.crafting || self.can_start(content)
    }

    fn consume_inputs(&mut self)
        requires
            old(self).wf(),
            inputs_ready_spec(old(self).inventory.model(), old(self).recipe.inputs@),
        ensures
            final(self).inventory.model() == consumed(old(self).inventory.model(), old(self).recipe.inputs@),
            final(self).recipe == old(self).recipe,
            final(self).output_buffer == old(self).output_buffer,
            final(self).craft_progress == old(self).craft_progress,
            final(self).crafting == old(self).crafting,
            final(self).blocked == old(self).blocked,
    {
        let ghost m0 = self.inventory.model();
        let ghost inputs = self.recipe.inputs@;
        self.inventory.shape_facts();
        let mut k: usize = 0;
        while k < self.recipe.inputs.len()
            invariant
                self.wf(),
                self.recipe == old(self).recipe,
                inputs == self.recipe.inputs@,
                k <= inputs.len(),
                self.output_buffer == old(self).output_buffer,
                self.craft_progress == old(self).craft_progress,
                self.crafting == old(self).crafting,
                self.blocked == old(self).blocked,
                inputs_ready_spec(m0, inputs),
                m0.counts.len() == ITEM_COUNT,
                self.inventory.model() == consumed(m0, inputs.take(k as int)),
                self.inventory.model().counts.len() == ITEM_COUNT,
                forall|j: int| k <= j < inputs.len() ==> #[trigger] self.inventory.model().count(inputs[j].0) == m0.count(inputs[j].0),
            decreases inputs.len() - k,
        {
            let (item, quantity) = self.recipe.inputs[k];
            proof {
                assert(inputs.take(k + 1).drop_last() =~= inputs.take(k as int));
                assert(inputs.take(k + 1).last() == (item, quantity));
                lemma_item_rank_bijective(item);
            }
            let ghost pre = self.inventory.model();
            assert(pre.count(inputs[k as int].0) == m0.count(inputs[k as int].0));
            assert(m0.count(inputs[k as int].0) >= inputs[k as int].1);
            let removed = self.inventory.remove_exact(item, quantity);
            assert(removed is Ok);
            proof {
                assert forall|j: int| k + 1 <= j < inputs.len() implies #[trigger] self.inventory.model().count(inputs[j].0) == m0.count(inputs[j].0) by {
                    assert(item_rank(inputs[k as int].0) < item_rank(inputs[j].0));
                    lemma_item_rank_bijective(inputs[j].0);
                    assert(pre.count(inputs[j].0) == m0.count(inputs[j].0));
                    assert(self.inventory.model().counts == pre.counts.update(item_rank(item) as int, (pre.count(item) - quantity) as u32));
                }
            }
            k = k + 1;
        }
        assert(inputs.take(k as int) =~= inputs);
    }

    /// Advances production one tick and returns the units produced.
    ///
    /// A running craft gains one tick of progress and completes when it
    /// reaches the craft time. Otherwise a craft starts when its inputs are
    /// present: it is blocked while the output stock fills the output buffer
    /// or one more output unit does not fit, and the start tick counts as
    /// progress.
    pub fn advance(&mut self, content: &ContentDatabase, events: &mut Vec<String>) -> (produced: u32)
        requires
            content.wf(),
            old(self).wf(),
        ensures
            final(self).wf(),
            final(self).recipe == old(self).recipe,
            final(self).output_buffer == old(self).output_buffer,
            old(self).crafting ==> {
                let progress = if old(self).craft_progress == u32::MAX { u32::MAX } else { (old(self).craft_progress + 1) as u32 };
                &&& final(self).blocked is None
                &&& if progress >= old(self).recipe.craft_time {
                    &&& produced == old(self).recipe.output_quantity
                    &&& !final(self).crafting && final(self).craft_progress == 0
                    &&& final(self).inventory.model() == old(self).inventory.model().added(old(self).recipe.output_item, produced)
                } else {
                    &&& produced == 0
                    &&& final(self).crafting && final(self).craft_progress == progress
                    &&& final(self).inventory == old(self).inventory
                }
            },
            !old(self).crafting && !inputs_ready_spec(old(self).inventory.model(), old(self).recipe.inputs@) ==>
                produced == 0 && final(self).blocked is None && !final(self).crafting
                && final(self).inventory == old(self).inventory && final(self).craft_progress == old(self).craft_progress
                && final(events)@ == old(events)@,
            !old(self).crafting && inputs_ready_spec(old(self).inventory.model(), old(self).recipe.inputs@)
                && old(self).inventory.model().count(old(self).recipe.output_item) >= old(self).output_buffer ==>
                produced == 0 && final(self).blocked == Some(ProductionBlockReason::OutputFull) && !final(self).crafting
                && final(self).inventory == old(self).inventory && final(self).craft_progress == old(self).craft_progress
                && final(events)@ == old(events)@,
            !old(self).crafting && inputs_ready_spec(old(self).inventory.model(), old(self).recipe.inputs@)
                && old(self).inventory.model().count(old(self).recipe.output_item) < old(self).output_buffer
                && old(self).inventory.model().max_insertable(*content, old(self).recipe.output_item, 1) == 0 ==>
                produced == 0 && final(self).blocked == Some(ProductionBlockReason::NoOutputSpace) && !final(self).crafting
                && final(self).inventory == old(self).inventory && final(self).craft_progress == old(self).craft_progress
                && final(events)@ == old(events)@,
            !old(self).crafting && can_start_spec(*old(self), *content) ==> {
                &&& final(self).blocked is None
                &&& if old(self).recipe.craft_time <= 1 {
                    &&& produced == old(self).recipe.output_quantity
                    &&& !final(self).crafting && final(self).craft_progress == 0
                    &&& final(self).inventory.model() == consumed(old(self).inventory.model(), old(self).recipe.inputs@)
                        .added(old(self).recipe.output_item, produced)
                } else {
                    &&& produced == 0
                    &&& final(self).crafting && final(self).craft_progress == 1
                    &&& final(self).inventory.model() == consumed(old(self).inventory.model(), old(self).recipe.inputs@)
                }
            },
            advanced_once(*content, *old(self), *final(self), produced),
    {
        self.blocked = None;
        if self.crafting {
            self.craft_progress = self.craft_progress.saturating_add(1);
            let mut line = String::new();
            push_str(&mut line, "craft ");
            push_str(&mut line, self.recipe.output_item.as_str());
            push_str(&mut line, " progress ");
            push_u64(&mut line, self.craft_progress as u64);
            push_str(&mut line, "/");
            push_u64(&mut line, self.recipe.craft_time as u64);
            events.push(line);
            if self.craft_progress >= self.recipe.craft_time {
                return self.complete(events);
            }
            return 0;
        }
        if !self.inputs_ready() {
            return 0;
        }
        if self.inventory.count(self.recipe.output_item) >= self.output_buffer {
            self.blocked = Some(ProductionBlockReason::OutputFull);
            return 0;
        }
        if self.inventory.max_insertable(content, self.recipe.output_item, 1) == 0 {
            self.blocked = Some(ProductionBlockReason::NoOutputSpace);
            return 0;
        }
        self.consume_inputs();
        self.crafting = true;
        self.craft_progress = 1;
        let mut line = String::new();
        push_str(&mut line, "craft ");
        push_str(&mut line, self.recipe.output_item.as_str());
        push_str(&mut line, " started");
        events.push(line);
        if self.craft_progress >= self.recipe.craft_time {
            self.complete(events)
        } else {
            0
        }
    }

    fn complete(&mut self, events: &mut Vec<String>) -> (produced: u32)
        ensures
            produced == old(self).recipe.output_quantity,
            final(self).inventory.model() == old(self).inventory.model().added(old(self).recipe.output_item, produced),
            !final(self).crafting,
            final(self).craft_progress == 0,
            final(self).recipe == old(self).recipe,
            final(self).output_buffer == old(self).output_buffer,
            final(self).blocked == old(self).blocked,
            final(events)@.len() == old(events)@.len() + 1,
    {
        let produced = self.recipe.output_quantity;
        self.inventory.force_insert(self.recipe.output_item, produced);
        self.crafting = false;
        self.craft_progress = 0;
        let mut line = String::new();
        push_str(&mut line, "craft ");
        push_str(&mut line, self.recipe.output_item.as_str());
        push_str(&mut line, " completed produced ");
        push_u64(&mut line, produced as u64);
        events.push(line);
        produced
    }

    pub fn craft_snapshot(&self) -> (r: CraftSnapshot)
        ensures
            r.inputs.entries@ == self.recipe.inputs@,
            r.output_item == self.recipe.output_item,
            r.output_quantity == self.recipe.output_quantity,
            r.output_buffer == self.output_buffer,
            r.craft_time == self.recipe.craft_time,
            r.craft_progress == self.craft_progress,
            r.crafting == self.crafting,
            r.blocked == self.blocked,
    {
        let mut inputs: Vec<(ItemId, u32)> = Vec::new();
        let mut k: usize = 0;
        while k < self.recipe.inputs.len()
            invariant
                k <= self.recipe.inputs@.len(),
                inputs@ == self.recipe.inputs@.take(k as int),
            decreases self.recipe.inputs@.len() - k,
        {
            inputs.push(self.recipe.inputs[k]);
            k = k + 1;
            assert(inputs@ =~= self.recipe.inputs@.take(k as int));
        }
        assert(self.recipe.inputs@.take(k as int) =~= self.recipe.inputs@);
        CraftSnapshot {
            inputs: ItemCounts { entries: inputs },
            output_item: self.recipe.output_item,
            output_quantity: self.recipe.output_quantity,
            output_buffer: self.output_buffer,
            craft_time: self.recipe.craft_time,
            craft_progress: self.craft_progress,
            crafting: self.crafting,
            blocked: self.blocked,
        }
    }
}

} // verus!
