//! Inventories: item counts bounded by weight and volume capacity, with
//! optional per-item reservations that restrict which items they accept.
use vstd::prelude::*;
use crate::content::{
    item_at, item_name, item_rank, lemma_item_rank_bijective, ContentDatabase, ItemId, ITEM_COUNT,
};
use crate::text::str_equals;

verus! {

/// Item quantities keyed by item, in catalog order; looked up by item name.
#[derive(Clone, Debug, PartialEq, Eq)]
pub struct ItemCounts {
    pub entries: Vec<(ItemId, u32)>,
}

/// The first entry of `s` whose item is named `name`, as an index.
pub open spec fn first_named(s: Seq<(ItemId, u32)>, name: Seq<char>, k: int) -> bool {
    0 <= k < s.len() && item_name(s[k].0) == name && forall|j: int| 0 <= j < k ==> item_name(#[trigger] s[j].0) != name
}

impl ItemCounts {
    pub fn new() -> (r: Self)
        ensures
            r.entries@.len() == 0,
    {
        ItemCounts { entries: Vec::new() }
    }

    /// The quantity recorded for the item named `name`.
    pub fn get(&self, name: &str) -> (r: Option<&u32>)
        ensures
            r matches Some(q) ==> exists|k: int| first_named(self.entries@, name@, k) && *q == self.entries@[k].1,
            r is None ==> forall|k: int| 0 <= k < self.entries@.len() ==> item_name(#[trigger] self.entries@[k].0) != name@,
    {
        let mut k: usize = 0;
        while k < self.entries.len()
            invariant
                k <= self.entries@.len(),
                forall|j: int| 0 <= j < k ==> item_name(#[trigger] self.entries@[j].0) != name@,
            decreases self.entries@.len() - k,
        {
            if str_equals(self.entries[k].0.as_str(), name) {
                assert(first_named(self.entries@, name@, k as int));
                return Some(&self.entries[k].1);
            }
            k = k + 1;
        }
        None
    }

    pub fn is_empty(&self) -> (r: bool)
        ensures
            r == (self.entries@.len() == 0),
    {
        self.entries.len() == 0
    }

    pub fn len(&self) -> (r: usize)
        ensures
            r == self.entries@.len(),
    {
        self.entries.len()
    }
}

#[derive(Clone, Debug, PartialEq, Eq)]
pub enum InventoryError {
    UnknownItem(ItemId),
    CapacityExceeded { item: ItemId, requested: u32, accepted: u32 },
    InsufficientQuantity { item: ItemId, requested: u32, available: u32 },
    ReservationBlocked(ItemId),
}

/// What a player is told of a refused inventory change.
pub open spec fn inventory_error_text(e: InventoryError) -> Seq<char> {
    match e {
        InventoryError::UnknownItem(id) => "unknown item: "@ + item_name(id),
        InventoryError::CapacityExceeded { item, requested, accepted } =>
            "capacity exceeded for "@ + item_name(item) + ": requested "@ + crate::text::decimal(requested as nat)
                + ", accepted "@ + crate::text::decimal(accepted as nat),
        InventoryError::InsufficientQuantity { item, requested, available } =>
            "insufficient quantity for "@ + item_name(item) + ": requested "@ + crate::text::decimal(requested as nat)
                + ", available "@ + crate::text::decimal(available as nat),
        InventoryError::ReservationBlocked(item) => "reservation blocks "@ + item_name(item),
    }
}

impl InventoryError {
    /// The message for the player.
    pub fn message(&self) -> (r: String)
        ensures
            r@ == inventory_error_text(*self),
    {
        let mut s = String::new();
        match self {
            InventoryError::UnknownItem(id) => {
                crate::text::push_str(&mut s, "unknown item: ");
                crate::text::push_str(&mut s, id.as_str());
            },
            InventoryError::CapacityExceeded { item, requested, accepted } => {
                crate::text::push_str(&mut s, "capacity exceeded for ");
                crate::text::push_str(&mut s, item.as_str());
                crate::text::push_str(&mut s, ": requested ");
                crate::text::push_u64(&mut s, *requested as u64);
                crate::text::push_str(&mut s, ", accepted ");
                crate::text::push_u64(&mut s, *accepted as u64);
            },
            InventoryError::InsufficientQuantity { item, requested, available } => {
                crate::text::push_str(&mut s, "insufficient quantity for ");
                crate::text::push_str(&mut s, item.as_str());
                crate::text::push_str(&mut s, ": requested ");
                crate::text::push_u64(&mut s, *requested as u64);
                crate::text::push_str(&mut s, ", available ");
                crate::text::push_u64(&mut s, *available as u64);
            },
            InventoryError::ReservationBlocked(item) => {
                crate::text::push_str(&mut s, "reservation blocks ");
                crate::text::push_str(&mut s, item.as_str());
            },
        }
        assert(s@ =~= inventory_error_text(*self));
        s
    }
}

/// The abstract content of an inventory.
pub struct InventoryModel {
    /// Count per item, in catalog order.
    pub counts: Seq<u32>,
    /// Reserved capacity per item, in catalog order; `None` where unreserved.
    pub reserved: Seq<Option<u32>>,
    pub weight_capacity: u32,
    pub volume_capacity: u32,
}

/// `a * b`, or the largest `u32` where the product does not fit.
pub open spec fn sat_mul(a: u32, b: u32) -> int {
    if a * b > u32::MAX { u32::MAX as int } else { a * b }
}

/// The weight taken by the first `n` items of the catalog.
pub open spec fn used_weight_upto(content: ContentDatabase, counts: Seq<u32>, n: nat) -> int
    decreases n,
{
    if n == 0 { 0 } else {
        used_weight_upto(content, counts, (n - 1) as nat) + sat_mul(content.def(item_at((n - 1) as nat)).weight, counts[n - 1])
    }
}

/// The volume taken by the first `n` items of the catalog.
pub open spec fn used_volume_upto(content: ContentDatabase, counts: Seq<u32>, n: nat) -> int
    decreases n,
{
    if n == 0 { 0 } else {
        used_volume_upto(content, counts, (n - 1) as nat) + sat_mul(content.def(item_at((n - 1) as nat)).volume, counts[n - 1])
    }
}

proof fn lemma_used_bounds(content: ContentDatabase, counts: Seq<u32>, n: nat)
    ensures
        0 <= used_weight_upto(content, counts, n) <= n * 0xffff_ffff,
        0 <= used_volume_upto(content, counts, n) <= n * 0xffff_ffff,
    decreases n,
{
    if n > 0 {
        lemma_used_bounds(content, counts, (n - 1) as nat);
    }
}

proof fn lemma_used_update(content: ContentDatabase, counts: Seq<u32>, r: int, x: u32, n: nat)
    requires
        0 <= r < counts.len(),
        n <= counts.len(),
    ensures
        used_weight_upto(content, counts.update(r, x), n) == used_weight_upto(content, counts, n)
            + (if r < n { sat_mul(content.def(item_at(r as nat)).weight, x) - sat_mul(content.def(item_at(r as nat)).weight, counts[r]) } else { 0 }),
        used_volume_upto(content, counts.update(r, x), n) == used_volume_upto(content, counts, n)
            + (if r < n { sat_mul(content.def(item_at(r as nat)).volume, x) - sat_mul(content.def(item_at(r as nat)).volume, counts[r]) } else { 0 }),
    decreases n,
{
    if n > 0 {
        lemma_used_update(content, counts, r, x, (n - 1) as nat);
    }
}

/// Saturating products grow by at most the product of what was added.
proof fn lemma_sat_mul_grows(a: u32, b: u32, c: u32, extra: u32)
    requires
        c <= b + extra,
        b <= c,
    ensures
        sat_mul(a, c) - sat_mul(a, b) <= extra * a,
        sat_mul(a, c) >= sat_mul(a, b),
{
    assert(a * b <= a * c) by (nonlinear_arith) requires b <= c;
    assert(a * c <= a * b + extra * a) by (nonlinear_arith) requires c <= b + extra;
    assert(extra * a >= 0) by (nonlinear_arith);
}

impl InventoryModel {
    pub open spec fn count(self, item: ItemId) -> u32 {
        self.counts[item_rank(item) as int]
    }

    pub open spec fn used_weight(self, content: ContentDatabase) -> int {
        used_weight_upto(content, self.counts, ITEM_COUNT as nat)
    }

    pub open spec fn used_volume(self, content: ContentDatabase) -> int {
        used_volume_upto(content, self.counts, ITEM_COUNT as nat)
    }

    pub open spec fn remaining_weight(self, content: ContentDatabase) -> int {
        if self.weight_capacity >= self.used_weight(content) { self.weight_capacity - self.used_weight(content) } else { 0 }
    }

    pub open spec fn remaining_volume(self, content: ContentDatabase) -> int {
        if self.volume_capacity >= self.used_volume(content) { self.volume_capacity - self.used_volume(content) } else { 0 }
    }

    /// An inventory without reservations takes any item; one with
    /// reservations takes only the reserved items.
    pub open spec fn item_allowed(self, item: ItemId) -> bool {
        (forall|k: int| 0 <= k < ITEM_COUNT ==> self.reserved[k] is None) || self.reserved[item_rank(item) as int] is Some
    }

    /// How many of `requested` units of `item` fit.
    pub open spec fn max_insertable(self, content: ContentDatabase, item: ItemId, requested: u32) -> u32 {
        if requested == 0 || !self.item_allowed(item) {
            0
        } else {
            let w = content.def(item).weight;
            let v = content.def(item).volume;
            let weight_limit = if w == 0 { requested as int } else { self.remaining_weight(content) / (w as int) };
            let volume_limit = if v == 0 { requested as int } else { self.remaining_volume(content) / (v as int) };
            let lim = if weight_limit < volume_limit { weight_limit } else { volume_limit };
            if (requested as int) < lim { requested } else { lim as u32 }
        }
    }

    /// What an insertion accepts fits the inventory: never more than asked
    /// for, nothing of an item it does not take, and no more than the weight
    /// and the volume still free allow, each unit taking the item's weight and
    /// volume. It accepts as many as that allows: either all that was asked
    /// for, or one more unit would exceed the free weight or the free volume.
    pub proof fn law_insertion_fits(self, content: ContentDatabase, item: ItemId, requested: u32, accepted: u32)
        requires
            accepted == self.max_insertable(content, item, requested),
        ensures
            accepted <= requested,
            !self.item_allowed(item) ==> accepted == 0,
            accepted * content.def(item).weight <= self.remaining_weight(content),
            accepted * content.def(item).volume <= self.remaining_volume(content),
            self.item_allowed(item) ==> accepted == requested
                || (accepted + 1) * content.def(item).weight > self.remaining_weight(content)
                || (accepted + 1) * content.def(item).volume > self.remaining_volume(content),
    {
        let w = content.def(item).weight as int;
        let v = content.def(item).volume as int;
        let rw = self.remaining_weight(content);
        let rv = self.remaining_volume(content);
        assert(rw >= 0 && rv >= 0);
        if requested > 0 && self.item_allowed(item) {
            let a = accepted as int;
            let wl = if w == 0 { requested as int } else { rw / w };
            let vl = if v == 0 { requested as int } else { rv / v };
            assert(a <= wl && a <= vl);
            assert(a == requested || a == wl || a == vl);
            if w > 0 {
                assert(wl * w <= rw && (wl + 1) * w > rw) by (nonlinear_arith)
                    requires w > 0, rw >= 0, wl == rw / w;
                assert(a * w <= wl * w) by (nonlinear_arith)
                    requires a <= wl, w > 0;
                if a == wl {
                    assert((a + 1) * w > rw);
                }
            }
            if v > 0 {
                assert(vl * v <= rv && (vl + 1) * v > rv) by (nonlinear_arith)
                    requires v > 0, rv >= 0, vl == rv / v;
                assert(a * v <= vl * v) by (nonlinear_arith)
                    requires a <= vl, v > 0;
                if a == vl {
                    assert((a + 1) * v > rv);
                }
            }
        }
    }

    /// An inventory within its capacities stays within them after an
    /// insertion takes what it accepts: the weight and the volume in use never
    /// pass the weight and volume capacity.
    pub proof fn law_insertion_keeps_capacity(self, content: ContentDatabase, item: ItemId, requested: u32, accepted: u32)
        requires
            self.counts.len() == ITEM_COUNT,
            accepted == self.max_insertable(content, item, requested),
        ensures
            self.used_weight(content) <= self.weight_capacity
                ==> self.added(item, accepted).used_weight(content) <= self.weight_capacity,
            self.used_volume(content) <= self.volume_capacity
                ==> self.added(item, accepted).used_volume(content) <= self.volume_capacity,
    {
        self.law_insertion_fits(content, item, requested, accepted);
        crate::content::lemma_item_rank_bijective(item);
        let r = item_rank(item) as int;
        let c = self.count(item);
        let x: u32 = if c + accepted > u32::MAX { u32::MAX } else { (c + accepted) as u32 };
        assert(self.added(item, accepted).counts == self.counts.update(r, x));
        lemma_used_update(content, self.counts, r, x, ITEM_COUNT as nat);
        lemma_sat_mul_grows(content.def(item).weight, c, x, accepted);
        lemma_sat_mul_grows(content.def(item).volume, c, x, accepted);
        assert(item_at(r as nat) == item);
        assert(self.counts[r] == c);
        let after = self.added(item, accepted);
        assert(after.used_weight(content) <= self.used_weight(content) + accepted * content.def(item).weight);
        assert(self.used_weight(content) <= self.weight_capacity ==> self.remaining_weight(content) == self.weight_capacity - self.used_weight(content));
        assert(after.used_volume(content) <= self.used_volume(content) + accepted * content.def(item).volume);
        assert(self.used_volume(content) <= self.volume_capacity ==> self.remaining_volume(content) == self.volume_capacity - self.used_volume(content));
    }

    /// The empty model of an inventory without reservations.
    pub open spec fn empty(weight_capacity: u32, volume_capacity: u32) -> InventoryModel {
        InventoryModel {
            counts: Seq::new(ITEM_COUNT as nat, |k: int| 0u32),
            reserved: Seq::new(ITEM_COUNT as nat, |k: int| None::<u32>),
            weight_capacity,
            volume_capacity,
        }
    }

    /// The model with `quantity` reserved for `item`.
    pub open spec fn with_reservation(self, item: ItemId, quantity: u32) -> InventoryModel {
        InventoryModel { reserved: self.reserved.update(item_rank(item) as int, Some(quantity)), ..self }
    }

    pub open spec fn is_empty(self) -> bool {
        forall|k: int| 0 <= k < ITEM_COUNT ==> self.counts[k] == 0
    }

    /// The model with `quantity` more of `item`, saturating at `u32::MAX`.
    pub open spec fn added(self, item: ItemId, quantity: u32) -> InventoryModel {
        let c = self.count(item) + quantity;
        InventoryModel {
            counts: self.counts.update(item_rank(item) as int, if c > u32::MAX { u32::MAX } else { c as u32 }),
            ..self
        }
    }

    /// The model with `quantity` fewer of `item`, which it holds.
    pub open spec fn removed(self, item: ItemId, quantity: u32) -> InventoryModel {
        InventoryModel { counts: self.counts.update(item_rank(item) as int, (self.count(item) - quantity) as u32), ..self }
    }
}

/// Item counts bounded by weight and volume capacity.
#[derive(Copy, Clone, Debug, PartialEq, Eq)]
pub struct Inventory {
    items: [u32; ITEM_COUNT],
    weight_capacity: u32,
    volume_capacity: u32,
    reserved: [Option<u32>; ITEM_COUNT],
}

fn sat_mul_exec(a: u32, b: u32) -> (r: u64)
    ensures
        r == sat_mul(a, b),
{
    assert((a as u64) * (b as u64) <= u64::MAX) by (nonlinear_arith)
        requires a <= u32::MAX, b <= u32::MAX;
    let p: u64 = a as u64 * b as u64;
    if p > u32::MAX as u64 { u32::MAX as u64 } else { p }
}

impl Inventory {
    pub closed spec fn model(self) -> InventoryModel {
        InventoryModel {
            counts: self.items@,
            reserved: self.reserved@,
            weight_capacity: self.weight_capacity,
            volume_capacity: self.volume_capacity,
        }
    }

    /// States the shape of the model: one count and one reservation per item.
    pub fn shape_facts(&self)
        ensures
            self.model().counts.len() == ITEM_COUNT,
            self.model().reserved.len() == ITEM_COUNT,
    {
    }

    /// An empty inventory without reservations.
    pub fn new(weight_capacity: u32, volume_capacity: u32) -> (r: Self)
        ensures
            r.model().counts == Seq::new(ITEM_COUNT as nat, |k: int| 0u32),
            r.model().reserved == Seq::new(ITEM_COUNT as nat, |k: int| None::<u32>),
            r.model().weight_capacity == weight_capacity,
            r.model().volume_capacity == volume_capacity,
            r.model() == InventoryModel::empty(weight_capacity, volume_capacity),
    {
        let items: [u32; ITEM_COUNT] = [0u32; ITEM_COUNT];
        let reserved: [Option<u32>; ITEM_COUNT] = [None; ITEM_COUNT];
        let r = Inventory { items, weight_capacity, volume_capacity, reserved };
        assert(r.model().counts =~= Seq::new(ITEM_COUNT as nat, |k: int| 0u32));
        assert(r.model().reserved =~= Seq::new(ITEM_COUNT as nat, |k: int| None::<u32>));
        assert(r.model().counts =~= InventoryModel::empty(weight_capacity, volume_capacity).counts);
        assert(r.model().reserved =~= InventoryModel::empty(weight_capacity, volume_capacity).reserved);
        r
    }

    /// The inventory with `quantity` reserved for `item`.
    pub fn with_reserved_capacity(self, item: ItemId, quantity: u32) -> (r: Self)
        ensures
            r.model() == (InventoryModel { reserved: self.model().reserved.update(item_rank(item) as int, Some(quantity)), ..self.model() }),
    {
        let mut r = self;
        r.reserve(item, quantity);
        r
    }

    /// Reserves `quantity` for `item`, replacing an earlier reservation.
    pub fn reserve(&mut self, item: ItemId, quantity: u32)
        ensures
            final(self).model() == (InventoryModel { reserved: old(self).model().reserved.update(item_rank(item) as int, Some(quantity)), ..old(self).model() }),
    {
        let k = item.index();
        self.reserved[k] = Some(quantity);
    }

    pub fn count(&self, item: ItemId) -> (r: u32)
        ensures
            r == self.model().count(item),
    {
        self.items[item.index()]
    }

    pub fn is_empty(&self) -> (r: bool)
        ensures
            r == self.model().is_empty(),
    {
        let mut k: usize = 0;
        while k < ITEM_COUNT
            invariant
                self.items@.len() == ITEM_COUNT,
                k <= ITEM_COUNT,
                forall|j: int| 0 <= j < k ==> self.items@[j] == 0,
            decreases ITEM_COUNT - k,
        {
            if self.items[k] != 0 {
                assert(self.model().counts[k as int] != 0);
                return false;
            }
            k = k + 1;
        }
        true
    }

    fn item_allowed(&self, item: ItemId) -> (r: bool)
        ensures
            r == self.model().item_allowed(item),
    {
        let mut any = false;
        let mut k: usize = 0;
        while k < ITEM_COUNT
            invariant
                self.reserved@.len() == ITEM_COUNT,
                k <= ITEM_COUNT,
                any == exists|j: int| 0 <= j < k && self.reserved@[j] is Some,
            decreases ITEM_COUNT - k,
        {
            if self.reserved[k].is_some() {
                any = true;
            }
            k = k + 1;
        }
        !any || self.reserved[item.index()].is_some()
    }

    fn used_weight(&self, content: &ContentDatabase) -> (r: u64)
        requires
            content.wf(),
        ensures
            r == self.model().used_weight(*content),
    {
        let mut total: u64 = 0;
        let mut k: usize = 0;
        while k < ITEM_COUNT
            invariant
                content.wf(),
                self.items@.len() == ITEM_COUNT,
                k <= ITEM_COUNT,
                total == used_weight_upto(*content, self.items@, k as nat),
            decreases ITEM_COUNT - k,
        {
            let item = ItemId::from_index(k);
            proof {
                lemma_used_bounds(*content, self.items@, k as nat);
                lemma_used_bounds(*content, self.items@, (k + 1) as nat);
            }
            total = total + sat_mul_exec(content.item(item).weight, self.items[k]);
            k = k + 1;
        }
        total
    }

    fn used_volume(&self, content: &ContentDatabase) -> (r: u64)
        requires
            content.wf(),
        ensures
            r == self.model().used_volume(*content),
    {
        let mut total: u64 = 0;
        let mut k: usize = 0;
        while k < ITEM_COUNT
            invariant
                content.wf(),
                self.items@.len() == ITEM_COUNT,
                k <= ITEM_COUNT,
                total == used_volume_upto(*content, self.items@, k as nat),
            decreases ITEM_COUNT - k,
        {
            let item = ItemId::from_index(k);
            proof {
                lemma_used_bounds(*content, self.items@, k as nat);
                lemma_used_bounds(*content, self.items@, (k + 1) as nat);
            }
            total = total + sat_mul_exec(content.item(item).volume, self.items[k]);
            k = k + 1;
        }
        total
    }

    /// Weight capacity not yet taken.
    pub fn remaining_weight(&self, content: &ContentDatabase) -> (r: u32)
        requires
            content.wf(),
        ensures
            r == self.model().remaining_weight(*content),
    {
        let used = self.used_weight(content);
        if (self.weight_capacity as u64) >= used { (self.weight_capacity as u64 - used) as u32 } else { 0 }
    }

    /// Volume capacity not yet taken.
    pub fn remaining_volume(&self, content: &ContentDatabase) -> (r: u32)
        requires
            content.wf(),
        ensures
            r == self.model().remaining_volume(*content),
    {
        let used = self.used_volume(content);
        if (self.volume_capacity as u64) >= used { (self.volume_capacity as u64 - used) as u32 } else { 0 }
    }

    /// How many of `requested` units of `item` the inventory accepts.
    pub fn max_insertable(&self, content: &ContentDatabase, item: ItemId, requested: u32) -> (r: u32)
        requires
            content.wf(),
        ensures
            r == self.model().max_insertable(*content, item, requested),
            r <= requested,
            r * content.def(item).weight <= self.model().remaining_weight(*content),
            r * content.def(item).volume <= self.model().remaining_volume(*content),
    {
        proof {
            let a = self.model().max_insertable(*content, item, requested);
            self.model().law_insertion_fits(*content, item, requested, a);
        }
        if requested == 0 || !self.item_allowed(item) {
            return 0;
        }
        let definition = content.item(item);
        let weight_limit: u32 = if definition.weight == 0 {
            requested
        } else {
            self.remaining_weight(content) / definition.weight
        };
        let volume_limit: u32 = if definition.volume == 0 {
            requested
        } else {
            self.remaining_volume(content) / definition.volume
        };
        let lim = if weight_limit < volume_limit { weight_limit } else { volume_limit };
        if requested < lim { requested } else { lim }
    }

    /// Inserts as many of `requested` units as fit and returns how many.
    pub fn insert_up_to(&mut self, content: &ContentDatabase, item: ItemId, requested: u32) -> (accepted: u32)
        requires
            content.wf(),
        ensures
            accepted == old(self).model().max_insertable(*content, item, requested),
            final(self).model() == old(self).model().added(item, accepted),
            accepted <= requested,
            accepted * content.def(item).weight <= old(self).model().remaining_weight(*content),
            accepted * content.def(item).volume <= old(self).model().remaining_volume(*content),
            old(self).model().used_weight(*content) <= old(self).model().weight_capacity
                ==> final(self).model().used_weight(*content) <= final(self).model().weight_capacity,
            old(self).model().used_volume(*content) <= old(self).model().volume_capacity
                ==> final(self).model().used_volume(*content) <= final(self).model().volume_capacity,
    {
        proof {
            let m = self.model();
            let a = m.max_insertable(*content, item, requested);
            m.law_insertion_keeps_capacity(*content, item, requested, a);
        }
        let accepted = self.max_insertable(content, item, requested);
        if accepted == 0 {
            proof {
                assert(self.model().counts.update(item_rank(item) as int, self.model().count(item)) =~= self.model().counts);
            }
            return 0;
        }
        let k = item.index();
        let current = self.items[k];
        self.items[k] = current.saturating_add(accepted);
        accepted
    }

    /// Inserts exactly `quantity` units, or reports why they do not fit. Units
    /// that fit are inserted either way.
    pub fn insert_exact(&mut self, content: &ContentDatabase, item: ItemId, quantity: u32) -> (r: Result<(), InventoryError>)
        requires
            content.wf(),
        ensures
            final(self).model() == old(self).model().added(item, old(self).model().max_insertable(*content, item, quantity)),
            r is Ok <==> old(self).model().max_insertable(*content, item, quantity) == quantity,
            r matches Err(e) ==> (if !old(self).model().item_allowed(item) {
                e == InventoryError::ReservationBlocked(item)
            } else {
                e == (InventoryError::CapacityExceeded {
                    item,
                    requested: quantity,
                    accepted: old(self).model().max_insertable(*content, item, quantity),
                })
            }),
    {
        let accepted = self.insert_up_to(content, item, quantity);
        if accepted == quantity {
            Ok(())
        } else if !self.item_allowed(item) {
            Err(InventoryError::ReservationBlocked(item))
        } else {
            Err(InventoryError::CapacityExceeded { item, requested: quantity, accepted })
        }
    }

    /// Adds units regardless of capacity and reservations.
    pub fn force_insert(&mut self, item: ItemId, quantity: u32)
        ensures
            final(self).model() == old(self).model().added(item, quantity),
    {
        let k = item.index();
        let current = self.items[k];
        self.items[k] = current.saturating_add(quantity);
        proof {
            if quantity == 0 {
                assert(self.model().counts =~= old(self).model().added(item, quantity).counts);
            }
        }
    }

    /// Removes up to `requested` units and returns how many.
    pub fn remove_up_to(&mut self, item: ItemId, requested: u32) -> (removed: u32)
        ensures
            removed == if requested < old(self).model().count(item) { requested } else { old(self).model().count(item) },
            final(self).model() == old(self).model().removed(item, removed),
    {
        let k = item.index();
        let available = self.items[k];
        let removed = if requested < available { requested } else { available };
        self.items[k] = available - removed;
        removed
    }

    /// Removes exactly `quantity` units, or reports how many there are.
    pub fn remove_exact(&mut self, item: ItemId, quantity: u32) -> (r: Result<(), InventoryError>)
        ensures
            r is Ok <==> quantity <= old(self).model().count(item),
            r is Ok ==> final(self).model() == old(self).model().removed(item, quantity),
            r matches Err(e) ==> e == (InventoryError::InsufficientQuantity {
                item,
                requested: quantity,
                available: old(self).model().count(item),
            }) && final(self).model() == old(self).model(),
    {
        let available = self.count(item);
        if available < quantity {
            return Err(InventoryError::InsufficientQuantity { item, requested: quantity, available });
        }
        self.remove_up_to(item, quantity);
        Ok(())
    }

    /// Moves up to `requested` units of `item` into `target`, as many as this
    /// inventory holds and the target accepts, and returns how many moved.
    pub fn transfer_up_to(&mut self, content: &ContentDatabase, target: &mut Inventory, item: ItemId, requested: u32) -> (moved: u32)
        requires
            content.wf(),
        ensures
            moved == old(target).model().max_insertable(*content, item,
                if requested < old(self).model().count(item) { requested } else { old(self).model().count(item) }),
            final(self).model() == old(self).model().removed(item, moved),
            final(target).model() == old(target).model().added(item, moved),
    {
        let available = self.count(item);
        let wanted = if requested < available { requested } else { available };
        let max_target = target.max_insertable(content, item, wanted);
        if max_target == 0 {
            proof {
                assert(self.model().counts.update(item_rank(item) as int, (self.model().count(item) - 0) as u32) =~= self.model().counts);
                assert(target.model().counts.update(item_rank(item) as int, target.model().count(item)) =~= target.model().counts);
            }
            return 0;
        }
        self.remove_up_to(item, max_target);
        let inserted = target.insert_up_to(content, item, max_target);
        assert(inserted == max_target);
        inserted
    }

    /// The inventory's counts and reservations, keyed by item.
    pub fn snapshot(&self) -> (r: InventorySnapshot)
        ensures
            r.shows(self.model()),
            r.weight_capacity == self.model().weight_capacity,
            r.volume_capacity == self.model().volume_capacity,
            nonzero_counts(r.items.entries@, self.model().counts),
            reserved_entries(r.reserved_capacity.entries@, self.model().reserved),
    {
        let mut items: Vec<(ItemId, u32)> = Vec::new();
        let mut reserved: Vec<(ItemId, u32)> = Vec::new();
        let mut k: usize = 0;
        while k < ITEM_COUNT
            invariant
                self.items@.len() == ITEM_COUNT,
                self.reserved@.len() == ITEM_COUNT,
                k <= ITEM_COUNT,
                items@ == nonzero_prefix(self.items@, k as nat),
                reserved@ == reserved_prefix(self.reserved@, k as nat),
            decreases ITEM_COUNT - k,
        {
            let item = ItemId::from_index(k);
            if self.items[k] != 0 {
                items.push((item, self.items[k]));
            }
            match self.reserved[k] {
                Some(q) => reserved.push((item, q)),
                None => {},
            }
            k = k + 1;
        }
        InventorySnapshot {
            items: ItemCounts { entries: items },
            reserved_capacity: ItemCounts { entries: reserved },
            weight_capacity: self.weight_capacity,
            volume_capacity: self.volume_capacity,
        }
    }
}

/// The nonzero counts among the first `n` catalog items, in catalog order.
pub open spec fn nonzero_prefix(counts: Seq<u32>, n: nat) -> Seq<(ItemId, u32)>
    decreases n,
{
    if n == 0 { Seq::empty() } else {
        let rest = nonzero_prefix(counts, (n - 1) as nat);
        if counts[n - 1] != 0 { rest.push((item_at((n - 1) as nat), counts[n - 1])) } else { rest }
    }
}

/// The reservations among the first `n` catalog items, in catalog order.
pub open spec fn reserved_prefix(reserved: Seq<Option<u32>>, n: nat) -> Seq<(ItemId, u32)>
    decreases n,
{
    if n == 0 { Seq::empty() } else {
        let rest = reserved_prefix(reserved, (n - 1) as nat);
        match reserved[n - 1] {
            Some(q) => rest.push((item_at((n - 1) as nat), q)),
            None => rest,
        }
    }
}

pub open spec fn nonzero_counts(entries: Seq<(ItemId, u32)>, counts: Seq<u32>) -> bool {
    entries == nonzero_prefix(counts, ITEM_COUNT as nat)
}

pub open spec fn reserved_entries(entries: Seq<(ItemId, u32)>, reserved: Seq<Option<u32>>) -> bool {
    entries == reserved_prefix(reserved, ITEM_COUNT as nat)
}

/// What an inventory holds and reserves, for display.
#[derive(Clone, Debug, PartialEq, Eq)]
pub struct InventorySnapshot {
    pub items: ItemCounts,
    pub reserved_capacity: ItemCounts,
    pub weight_capacity: u32,
    pub volume_capacity: u32,
}

impl InventorySnapshot {
    /// Whether the snapshot reports an inventory: its capacities, the
    /// nonzero counts and the reservations.
    pub open spec fn shows(self, m: InventoryModel) -> bool {
        &&& self.weight_capacity == m.weight_capacity
        &&& self.volume_capacity == m.volume_capacity
        &&& nonzero_counts(self.items.entries@, m.counts)
        &&& reserved_entries(self.reserved_capacity.entries@, m.reserved)
    }
}

/// A transfer moves units without creating or destroying any: the source
/// loses exactly what the target gains, when the target's count does not
/// saturate.
pub proof fn law_transfer_conserves(
    source: InventoryModel,
    target: InventoryModel,
    item: ItemId,
    moved: u32,
    source_after: InventoryModel,
    target_after: InventoryModel,
)
    requires
        source.counts.len() == ITEM_COUNT,
        target.counts.len() == ITEM_COUNT,
        moved <= source.count(item),
        target.count(item) + moved <= u32::MAX,
        source_after == source.removed(item, moved),
        target_after == target.added(item, moved),
    ensures
        source_after.count(item) + target_after.count(item) == source.count(item) + target.count(item),
        forall|other: ItemId| other != item ==> source_after.count(other) == source.count(other) && target_after.count(other) == target.count(other),
{
    assert forall|other: ItemId| other != item implies source_after.count(other) == source.count(other) && target_after.count(other) == target.count(other) by {
        lemma_item_rank_bijective(other);
        lemma_item_rank_bijective(item);
    }
}

} // verus!
