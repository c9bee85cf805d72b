//! Mining: extractors that move ore from a deposit into a stockpile.
use vstd::prelude::*;
use crate::content::{ContentDatabase, ItemId};
use crate::resources::{Inventory, InventoryModel};

verus! {

/// What is left in the ground: a finite quantity, or an inexhaustible
/// manifest for items made from nothing.
#[derive(Copy, Clone, Debug, PartialEq, Eq, Structural)]
pub enum Deposit {
    Finite(u32),
    Manifest,
}

#[derive(Copy, Clone, Debug, PartialEq, Eq, Structural)]
pub struct MiningExtractor {
    pub item: ItemId,
    pub speed: u32,
    pub deposit: Deposit,
}

/// How much one tick may mine before the stockpile is considered.
pub open spec fn available_to_mine(m: MiningExtractor) -> u32 {
    match m.deposit {
        Deposit::Finite(remaining) => if remaining < m.speed { remaining } else { m.speed },
        Deposit::Manifest => m.speed,
    }
}

impl MiningExtractor {
    /// An extractor for `item`: manifest items never run out, others hold
    /// `deposit_size` units.
    pub fn for_item(content: &ContentDatabase, item: ItemId, speed: u32, deposit_size: u32) -> (r: Self)
        requires
            content.wf(),
        ensures
            r.item == item,
            r.speed == speed,
            r.deposit == (if content.def(item).create_from_nothing { Deposit::Manifest } else { Deposit::Finite(deposit_size) }),
    {
        let deposit = if content.item(item).create_from_nothing { Deposit::Manifest } else { Deposit::Finite(deposit_size) };
        MiningExtractor { item, speed, deposit }
    }

    /// Mines up to the extractor's speed, as much as the deposit holds and the
    /// stockpile accepts, and returns how much was mined.
    pub fn advance(&mut self, content: &ContentDatabase, stockpile: &mut Inventory) -> (mined: u32)
        requires
            content.wf(),
        ensures
            mined == (if available_to_mine(*old(self)) == 0 { 0 } else {
                old(stockpile).model().max_insertable(*content, old(self).item, available_to_mine(*old(self)))
            }),
            final(stockpile).model() == old(stockpile).model().added(old(self).item, mined),
            final(self).item == old(self).item,
            final(self).speed == old(self).speed,
            final(self).deposit == (match old(self).deposit {
                Deposit::Finite(remaining) => Deposit::Finite((remaining - mined) as u32),
                Deposit::Manifest => Deposit::Manifest,
            }),
    {
        let available = match self.deposit {
            Deposit::Finite(remaining) => if remaining < self.speed { remaining } else { self.speed },
            Deposit::Manifest => self.speed,
        };
        stockpile.shape_facts();
        proof { crate::content::lemma_item_rank_bijective(self.item); }
        if available == 0 {
            proof {
                assert(stockpile.model().counts.update(crate::content::item_rank(self.item) as int, stockpile.model().count(self.item)) =~= stockpile.model().counts);
            }
            match self.deposit {
                Deposit::Finite(remaining) => { assert(remaining - 0 == remaining); },
                Deposit::Manifest => {},
            }
            return 0;
        }
        let mined = stockpile.insert_up_to(content, self.item, available);
        match self.deposit {
            Deposit::Finite(remaining) => {
                self.deposit = Deposit::Finite(remaining - mined);
            },
            Deposit::Manifest => {},
        }
        mined
    }

    pub fn is_depleted(&self) -> (r: bool)
        ensures
            r == (self.deposit == Deposit::Finite(0)),
    {
        match self.deposit {
            Deposit::Finite(remaining) => remaining == 0,
            Deposit::Manifest => false,
        }
    }
}

/// Mining moves units from the deposit into the stockpile without creating
/// any: a finite deposit shrinks by exactly what the stockpile gains.
pub proof fn law_mining_conserves(before: MiningExtractor, after: MiningExtractor, mined: u32, stock_before: InventoryModel, stock_after: InventoryModel)
    requires
        before.deposit matches Deposit::Finite(r) && mined <= r,
        stock_before.count(before.item) + mined <= u32::MAX,
        stock_before.counts.len() == crate::content::ITEM_COUNT,
        after.deposit == (match before.deposit { Deposit::Finite(r) => Deposit::Finite((r - mined) as u32), Deposit::Manifest => Deposit::Manifest }),
        stock_after == stock_before.added(before.item, mined),
    ensures
        after.deposit matches Deposit::Finite(r2) && r2 + stock_after.count(before.item)
            == (match before.deposit { Deposit::Finite(r) => r as int, Deposit::Manifest => 0 }) + stock_before.count(before.item),
{
    crate::content::lemma_item_rank_bijective(before.item);
}

} // verus!
