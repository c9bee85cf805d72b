//! Sharing energy among connected batteries in proportion to their
//! capacities, without creating or losing any.
use vstd::prelude::*;
use crate::power::{owner_lt, sum_energy, Battery, BatteryBank};

verus! {

/// The total energy of the batteries stored at some indices.
pub open spec fn energy_at(s: Seq<Battery>, idx: Seq<usize>) -> int
    decreases idx.len(),
{
    if idx.len() == 0 { 0 } else { energy_at(s, idx.drop_last()) + s[idx.last() as int].energy }
}

/// The total capacity of the batteries stored at some indices.
pub open spec fn capacity_at(s: Seq<Battery>, idx: Seq<usize>) -> int
    decreases idx.len(),
{
    if idx.len() == 0 { 0 } else { capacity_at(s, idx.drop_last()) + s[idx.last() as int].capacity }
}

/// The energy a battery gave up between two states, or zero where it
/// gained or kept its charge.
pub open spec fn energy_drop(before: u32, after: u32) -> int {
    if before > after { before - after } else { 0 }
}

/// The units that left the first `n` batteries between two states of a bank:
/// what balancing moved from one battery to another.
pub open spec fn units_moved(before: Seq<Battery>, after: Seq<Battery>, n: nat) -> int
    decreases n,
{
    if n == 0 { 0 } else {
        units_moved(before, after, (n - 1) as nat) + energy_drop(before[n - 1].energy, after[n - 1].energy)
    }
}

pub proof fn lemma_units_moved_nonneg(before: Seq<Battery>, after: Seq<Battery>, n: nat)
    ensures
        units_moved(before, after, n) >= 0,
    decreases n,
{
    if n > 0 {
        lemma_units_moved_nonneg(before, after, (n - 1) as nat);
    }
}

/// `a + b`, or the largest `u64` where the sum does not fit.
pub open spec fn sat_add64(a: u64, b: int) -> u64 {
    if a + b > u64::MAX { u64::MAX } else { (a + b) as u64 }
}

/// Indices of distinct stored batteries.
pub open spec fn distinct_indices(idx: Seq<usize>, len: int) -> bool {
    &&& forall|k: int| 0 <= k < idx.len() ==> (#[trigger] idx[k]) < len
    &&& forall|i: int, j: int| 0 <= i < j < idx.len() ==> idx[i] != idx[j]
}

/// Whether a storage index is one of the listed ones.
pub open spec fn listed(idx: Seq<usize>, m: int) -> bool {
    exists|k: int| 0 <= k < idx.len() && idx[k] == m
}

pub open spec fn sum_wide(s: Seq<u128>) -> int
    decreases s.len(),
{
    if s.len() == 0 { 0 } else { sum_wide(s.drop_last()) + s.last() }
}

pub open spec fn sum_u32(s: Seq<u32>) -> int
    decreases s.len(),
{
    if s.len() == 0 { 0 } else { sum_u32(s.drop_last()) + s.last() }
}

pub open spec fn count_true(b: Seq<bool>) -> int
    decreases b.len(),
{
    if b.len() == 0 { 0 } else { count_true(b.drop_last()) + if b.last() { 1int } else { 0int } }
}

pub open spec fn count_positive(r: Seq<u128>) -> int
    decreases r.len(),
{
    if r.len() == 0 { 0 } else { count_positive(r.drop_last()) + if r.last() > 0 { 1int } else { 0int } }
}

/// How many positive remainders are not yet rounded up.
pub open spec fn open_positive(r: Seq<u128>, b: Seq<bool>) -> int
    decreases r.len(),
{
    if r.len() == 0 || b.len() == 0 {
        0
    } else {
        open_positive(r.drop_last(), b.drop_last()) + if r.last() > 0 && !b.last() { 1int } else { 0int }
    }
}

proof fn lemma_sum_energy_update(s: Seq<Battery>, i: int, b: Battery)
    requires
        0 <= i < s.len(),
    ensures
        sum_energy(s.update(i, b)) == sum_energy(s) - s[i].energy + b.energy,
    decreases s.len(),
{
    let t = s.update(i, b);
    if i == s.len() - 1 {
        assert(t.drop_last() =~= s.drop_last());
    } else {
        assert(t.drop_last() =~= s.drop_last().update(i, b));
        lemma_sum_energy_update(s.drop_last(), i, b);
    }
}

proof fn lemma_remainders_bounded(r: Seq<u128>, c: int)
    requires
        forall|i: int| 0 <= i < r.len() ==> r[i] < c,
    ensures
        0 <= sum_wide(r) <= count_positive(r) * (c - 1),
        0 <= count_positive(r) <= r.len(),
    decreases r.len(),
{
    if r.len() > 0 {
        lemma_remainders_bounded(r.drop_last(), c);
        let p = count_positive(r.drop_last());
        if r.last() > 0 {
            assert((p + 1) * (c - 1) == p * (c - 1) + (c - 1)) by (nonlinear_arith);
        }
    }
}

proof fn lemma_open_positive_all_open(r: Seq<u128>, b: Seq<bool>)
    requires
        r.len() == b.len(),
        forall|i: int| 0 <= i < b.len() ==> !b[i],
    ensures
        open_positive(r, b) == count_positive(r),
        count_true(b) == 0,
    decreases r.len(),
{
    if r.len() > 0 {
        lemma_open_positive_all_open(r.drop_last(), b.drop_last());
    }
}

proof fn lemma_round_up(r: Seq<u128>, b: Seq<bool>, i: int)
    requires
        r.len() == b.len(),
        0 <= i < r.len(),
        r[i] > 0,
        !b[i],
    ensures
        open_positive(r, b.update(i, true)) == open_positive(r, b) - 1,
        count_true(b.update(i, true)) == count_true(b) + 1,
    decreases r.len(),
{
    let t = b.update(i, true);
    if i == r.len() - 1 {
        assert(t.drop_last() =~= b.drop_last());
    } else {
        assert(t.drop_last() =~= b.drop_last().update(i, true));
        lemma_round_up(r.drop_last(), b.drop_last(), i);
    }
}

proof fn lemma_open_positive_witness(r: Seq<u128>, b: Seq<bool>)
    requires
        r.len() == b.len(),
        open_positive(r, b) > 0,
    ensures
        exists|i: int| 0 <= i < r.len() && r[i] > 0 && !b[i],
    decreases r.len(),
{
    let n = r.len() - 1;
    if r[n] > 0 && !b[n] {
        assert(0 <= n < r.len() && r[n] > 0 && !b[n]);
    } else {
        lemma_open_positive_witness(r.drop_last(), b.drop_last());
        let i = choose|i: int| 0 <= i < r.drop_last().len() && r.drop_last()[i] > 0 && !b.drop_last()[i];
        assert(r[i] > 0 && !b[i]);
    }
}

proof fn lemma_energy_within_capacity(s: Seq<Battery>, idx: Seq<usize>)
    requires
        forall|k: int| 0 <= k < idx.len() ==> (#[trigger] idx[k]) < s.len(),
        forall|m: int| 0 <= m < s.len() ==> (#[trigger] s[m]).energy <= s[m].capacity,
    ensures
        0 <= energy_at(s, idx) <= capacity_at(s, idx),
        capacity_at(s, idx) <= idx.len() * 0xffff_ffff,
    decreases idx.len(),
{
    if idx.len() > 0 {
        lemma_energy_within_capacity(s, idx.drop_last());
        assert(idx.drop_last().len() * 0xffff_ffff + 0xffff_ffff == idx.len() * 0xffff_ffff) by (nonlinear_arith)
            requires idx.drop_last().len() + 1 == idx.len();
    }
}

proof fn lemma_capacity_prefix(s: Seq<Battery>, idx: Seq<usize>, k: int)
    requires
        0 <= k <= idx.len(),
        forall|j: int| 0 <= j < idx.len() ==> (#[trigger] idx[j]) < s.len(),
    ensures
        capacity_at(s, idx.take(k)) <= capacity_at(s, idx),
    decreases idx.len(),
{
    if k == idx.len() {
        assert(idx.take(k) =~= idx);
    } else {
        assert(idx.drop_last().take(k) =~= idx.take(k));
        lemma_capacity_prefix(s, idx.drop_last(), k);
    }
}

proof fn lemma_energy_at_values(s: Seq<Battery>, idx: Seq<usize>, shares: Seq<u32>)
    requires
        shares.len() == idx.len(),
        forall|k: int| 0 <= k < idx.len() ==> (#[trigger] idx[k]) < s.len(),
        forall|k: int| 0 <= k < idx.len() ==> s[#[trigger] idx[k] as int].energy == shares[k],
    ensures
        energy_at(s, idx) == sum_u32(shares),
    decreases idx.len(),
{
    if idx.len() > 0 {
        let n = idx.len() - 1;
        assert(s[idx[n] as int].energy == shares[n]);
        lemma_energy_at_values(s, idx.drop_last(), shares.drop_last());
    }
}

impl BatteryBank {
    /// Shares the energy of the batteries at `component` in proportion to
    /// their capacities: each gets its floor of total energy × capacity ÷
    /// total capacity, and the units left over go one each to the largest
    /// remainders, ties to the smaller owner. Returns whether any battery
    /// changed and the component's total energy.
    pub fn balance(&mut self, component: &Vec<usize>) -> (r: (bool, u128))
        requires
            old(self).wf(),
            distinct_indices(component@, old(self).entries().len() as int),
        ensures
            final(self).wf(),
            r.1 == energy_at(old(self).entries(), component@),
            final(self).entries().len() == old(self).entries().len(),
            forall|m: int| 0 <= m < final(self).entries().len() ==> {
                &&& (#[trigger] final(self).entries()[m]).owner == old(self).entries()[m].owner
                &&& final(self).entries()[m].capacity == old(self).entries()[m].capacity
            },
            forall|m: int| 0 <= m < final(self).entries().len() && !listed(component@, m)
                ==> #[trigger] final(self).entries()[m] == old(self).entries()[m],
            energy_at(final(self).entries(), component@) == energy_at(old(self).entries(), component@),
            sum_energy(final(self).entries()) == sum_energy(old(self).entries()),
            capacity_at(old(self).entries(), component@) > 0 ==> forall|k: int| 0 <= k < component@.len() ==> {
                let e = energy_at(old(self).entries(), component@);
                let c = capacity_at(old(self).entries(), component@);
                let share = e * old(self).entries()[component@[k] as int].capacity / c;
                share <= (#[trigger] final(self).entries()[component@[k] as int]).energy <= share + 1
            },
    {
        let ghost old_entries = self.entries();
        let ghost idx = component@;
        let n = component.len();
        proof {
            assert forall|m: int| 0 <= m < old_entries.len() implies (#[trigger] old_entries[m]).energy <= old_entries[m].capacity by {
                self.lemma_within_capacity(m);
            }
        }
        let mut total_energy: u128 = 0;
        let mut total_capacity: u128 = 0;
        let mut k: usize = 0;
        while k < n
            invariant
                self.entries() == old_entries,
                self.wf(),
                idx == component@,
                n == idx.len(),
                distinct_indices(idx, old_entries.len() as int),
                k <= n,
                total_energy == energy_at(old_entries, idx.take(k as int)),
                total_capacity == capacity_at(old_entries, idx.take(k as int)),
                forall|m: int| 0 <= m < old_entries.len() ==> (#[trigger] old_entries[m]).energy <= old_entries[m].capacity,
            decreases n - k,
        {
            let b = self.at(component[k]);
            proof {
                assert(idx.take(k + 1).drop_last() =~= idx.take(k as int));
                lemma_energy_within_capacity(old_entries, idx.take(k as int));
                assert(k * 0xffff_ffff <= 0x1_0000_0000_0000_0000 * 0xffff_ffff) by (nonlinear_arith)
                    requires k <= usize::MAX;
            }
            total_energy = total_energy + b.energy as u128;
            total_capacity = total_capacity + b.capacity as u128;
            k = k + 1;
        }
        assert(idx.take(n as int) =~= idx);
        let e = total_energy;
        let c = total_capacity;
        proof {
            lemma_energy_within_capacity(old_entries, idx);
            assert(n * 0xffff_ffff <= 0x1_0000_0000_0000_0000 * 0xffff_ffff) by (nonlinear_arith)
                requires n <= usize::MAX;
        }
        if c == 0 {
            proof {
                assert forall|m: int| 0 <= m < self.entries().len() && !listed(component@, m)
                    implies #[trigger] self.entries()[m] == old_entries[m] by {}
            }
            return (false, e);
        }
        // Floors and remainders of each battery's share.
        let mut floors: Vec<u128> = Vec::new();
        let mut rems: Vec<u128> = Vec::new();
        let mut assigned: u128 = 0;
        let ghost mut rem_total: int = 0;
        let mut k: usize = 0;
        while k < n
            invariant
                self.entries() == old_entries,
                self.wf(),
                idx == component@,
                n == idx.len(),
                distinct_indices(idx, old_entries.len() as int),
                e == energy_at(old_entries, idx),
                c == capacity_at(old_entries, idx),
                0 <= e <= c,
                0 < c <= 0x1_0000_0000_0000_0000 * 0xffff_ffff,
                k <= n,
                floors@.len() == k,
                rems@.len() == k,
                assigned == sum_wide(floors@),
                rem_total == sum_wide(rems@),
                rem_total >= 0,
                assigned * c + rem_total == e * capacity_at(old_entries, idx.take(k as int)),
                forall|j: int| 0 <= j < k ==> (#[trigger] rems@[j]) < c,
                forall|j: int| 0 <= j < k ==> (#[trigger] floors@[j]) == e * old_entries[idx[j] as int].capacity / (c as int),
                forall|j: int| 0 <= j < k ==> (#[trigger] floors@[j]) * c + rems@[j] == e * old_entries[idx[j] as int].capacity,
                capacity_at(old_entries, idx.take(k as int)) <= c,
                assigned <= e,
            decreases n - k,
        {
            let capacity = self.at(component[k]).capacity as u128;
            proof {
                assert(idx.take(k + 1).drop_last() =~= idx.take(k as int));
                assert(e * capacity <= 0x1_0000_0000_0000_0000 * 0xffff_ffff * 0xffff_ffff) by (nonlinear_arith)
                    requires e <= 0x1_0000_0000_0000_0000 * 0xffff_ffff, capacity <= 0xffff_ffff;
            }
            let numerator = e * capacity;
            let floor = numerator / c;
            let rem = numerator % c;
            proof {
                vstd::arithmetic::div_mod::lemma_fundamental_div_mod(numerator as int, c as int);
                let before = capacity_at(old_entries, idx.take(k as int));
                assert(capacity_at(old_entries, idx.take(k + 1)) == before + capacity);
                lemma_capacity_prefix(old_entries, idx, k + 1);
                assert(e * (before + capacity) == e * before + e * capacity) by (nonlinear_arith);
                assert((assigned + floor) * c == assigned * c + floor * c) by (nonlinear_arith);
                assert(floor * c == c * floor) by (nonlinear_arith);
                // The floors sum to at most the energy.
                assert((assigned + floor) * c <= e * (before + capacity)) by (nonlinear_arith)
                    requires
                        assigned * c + rem_total == e * before,
                        floor * c + rem == e * capacity,
                        rem_total >= 0,
                        rem >= 0;
                assert(e * (before + capacity) <= e * c) by (nonlinear_arith)
                    requires before + capacity <= c, e >= 0;
                assert(assigned + floor <= e) by (nonlinear_arith)
                    requires (assigned + floor) * c <= e * c, c > 0;
                assert(floors@.push(floor).drop_last() =~= floors@);
                assert(rems@.push(rem).drop_last() =~= rems@);
            }
            floors.push(floor);
            rems.push(rem);
            assigned = assigned + floor;
            proof {
                rem_total = rem_total + rem;
            }
            k = k + 1;
        }
        assert(idx.take(n as int) =~= idx);
        // The units left over: as many as the remainders add up to.
        let extra = e - assigned;
        proof {
            assert(extra * c == rem_total) by (nonlinear_arith)
                requires assigned * c + rem_total == e * c, extra == e - assigned;
            lemma_remainders_bounded(rems@, c as int);
            let p = count_positive(rems@);
            if p == 0 {
                assert(extra == 0) by (nonlinear_arith)
                    requires extra * c == rem_total, rem_total <= 0 * (c - 1), rem_total >= 0, c > 0, extra >= 0;
            } else {
                assert(extra < p) by (nonlinear_arith)
                    requires extra * c == rem_total, rem_total <= p * (c - 1), c > 0, p >= 1, extra >= 0;
            }
        }
        let mut bumped: Vec<bool> = Vec::new();
        let mut k: usize = 0;
        while k < n
            invariant
                k <= n,
                bumped@.len() == k,
                forall|j: int| 0 <= j < k ==> !bumped@[j],
            decreases n - k,
        {
            bumped.push(false);
            k = k + 1;
        }
        proof {
            lemma_open_positive_all_open(rems@, bumped@);
        }
        let mut t: u128 = 0;
        while t < extra
            invariant
                self.entries() == old_entries,
                rems@.len() == n,
                bumped@.len() == n,
                idx == component@,
                n == idx.len(),
                distinct_indices(idx, old_entries.len() as int),
                t <= extra,
                extra == 0 || extra < count_positive(rems@),
                count_true(bumped@) == t,
                open_positive(rems@, bumped@) == count_positive(rems@) - t,
                forall|j: int| 0 <= j < n && #[trigger] bumped@[j] ==> rems@[j] > 0,
            decreases extra - t,
        {
            proof {
                lemma_open_positive_witness(rems@, bumped@);
            }
            let ghost witness = choose|i: int| 0 <= i < rems@.len() && rems@[i] > 0 && !bumped@[i];
            let mut best: usize = n;
            let mut j: usize = 0;
            while j < n
                invariant
                    self.entries() == old_entries,
                    rems@.len() == n,
                    bumped@.len() == n,
                    idx == component@,
                    n == idx.len(),
                    distinct_indices(idx, old_entries.len() as int),
                    j <= n,
                    0 <= witness < n,
                    rems@[witness] > 0,
                    !bumped@[witness],
                    best == n || (best < n && !bumped@[best as int]),
                    witness < j ==> best < n && rems@[best as int] >= rems@[witness],
                decreases n - j,
            {
                if !bumped[j] {
                    if best == n {
                        best = j;
                    } else {
                        let better = rems[j] > rems[best] || (rems[j] == rems[best]
                            && owner_lt(self.at(component[j]).owner, self.at(component[best]).owner));
                        if better {
                            best = j;
                        }
                    }
                }
                j = j + 1;
            }
            proof {
                lemma_round_up(rems@, bumped@, best as int);
            }
            bumped.set(best, true);
            t = t + 1;
        }
        // The new energies: the floors, plus one where rounded up.
        let mut shares: Vec<u32> = Vec::new();
        let mut k: usize = 0;
        while k < n
            invariant
                self.entries() == old_entries,
                idx == component@,
                n == idx.len(),
                distinct_indices(idx, old_entries.len() as int),
                floors@.len() == n,
                rems@.len() == n,
                bumped@.len() == n,
                0 < c,
                e <= c,
                c == capacity_at(old_entries, idx),
                forall|j: int| 0 <= j < n ==> (#[trigger] floors@[j]) == e * old_entries[idx[j] as int].capacity / (c as int),
                forall|j: int| 0 <= j < n ==> (#[trigger] floors@[j]) * c + rems@[j] == e * old_entries[idx[j] as int].capacity,
                forall|j: int| 0 <= j < n && #[trigger] bumped@[j] ==> rems@[j] > 0,
                k <= n,
                shares@.len() == k,
                sum_u32(shares@) == sum_wide(floors@.take(k as int)) + count_true(bumped@.take(k as int)),
                forall|j: int| 0 <= j < k ==> #[trigger] shares@[j] == floors@[j] + if bumped@[j] { 1int } else { 0int },
                forall|j: int| 0 <= j < k ==> #[trigger] shares@[j] <= old_entries[idx[j] as int].capacity,
            decreases n - k,
        {
            let capacity = self.at(component[k]).capacity;
            let floor = floors[k];
            proof {
                assert(floors@.take(k + 1).drop_last() =~= floors@.take(k as int));
                assert(bumped@.take(k + 1).drop_last() =~= bumped@.take(k as int));
                assert(shares@.push(0).drop_last() =~= shares@);
                assert(e * capacity <= c * capacity) by (nonlinear_arith) requires e <= c, capacity >= 0;
                assert(floor <= capacity) by (nonlinear_arith)
                    requires floor * c + rems@[k as int] == e * capacity, e * capacity <= c * capacity, c > 0, rems@[k as int] >= 0;
                if bumped@[k as int] {
                    assert(floor < capacity) by (nonlinear_arith)
                        requires floor * c + rems@[k as int] == e * capacity, e * capacity <= c * capacity, c > 0, rems@[k as int] > 0;
                }
            }
            let share: u32 = if bumped[k] { (floor + 1) as u32 } else { floor as u32 };
            proof {
                assert(shares@.push(share).drop_last() =~= shares@);
            }
            shares.push(share);
            k = k + 1;
        }
        assert(floors@.take(n as int) =~= floors@);
        assert(bumped@.take(n as int) =~= bumped@);
        // Write the shares back, one battery at a time.
        let mut changed = false;
        let mut k: usize = 0;
        while k < n
            invariant
                self.wf(),
                idx == component@,
                n == idx.len(),
                shares@.len() == n,
                distinct_indices(idx, old_entries.len() as int),
                self.entries().len() == old_entries.len(),
                forall|m: int| 0 <= m < old_entries.len() ==> {
                    &&& (#[trigger] self.entries()[m]).owner == old_entries[m].owner
                    &&& self.entries()[m].capacity == old_entries[m].capacity
                },
                forall|j: int| 0 <= j < n ==> #[trigger] shares@[j] <= old_entries[idx[j] as int].capacity,
                k <= n,
                forall|j: int| 0 <= j < k ==> self.entries()[#[trigger] idx[j] as int].energy == shares@[j],
                forall|m: int| 0 <= m < old_entries.len() && !listed(idx.take(k as int), m) ==> #[trigger] self.entries()[m] == old_entries[m],
                sum_energy(self.entries()) == sum_energy(old_entries) - energy_at(old_entries, idx.take(k as int)) + sum_u32(shares@.take(k as int)),
            decreases n - k,
        {
            let m = component[k];
            let current = self.at(m);
            if current.energy != shares[k] {
                changed = true;
            }
            let ghost before = self.entries();
            proof {
                assert(!listed(idx.take(k as int), m as int)) by {
                    if listed(idx.take(k as int), m as int) {
                        let j = choose|j: int| 0 <= j < idx.take(k as int).len() && idx.take(k as int)[j] == m;
                        assert(idx[j] == idx[k as int]);
                    }
                }
                assert(before[m as int] == old_entries[m as int]);
                lemma_sum_energy_update(before, m as int, Battery { energy: shares[k as int], ..current });
                assert(idx.take(k + 1).drop_last() =~= idx.take(k as int));
                assert(shares@.take(k + 1).drop_last() =~= shares@.take(k as int));
            }
            self.set_at(m, Battery { energy: shares[k], ..current });
            proof {
                assert forall|mm: int| 0 <= mm < old_entries.len() && !listed(idx.take(k + 1), mm)
                    implies #[trigger] self.entries()[mm] == old_entries[mm] by {
                    if mm == m {
                        assert(idx.take(k + 1)[k as int] == m);
                    } else {
                        if listed(idx.take(k as int), mm) {
                            let j = choose|j: int| 0 <= j < idx.take(k as int).len() && idx.take(k as int)[j] == mm;
                            assert(idx.take(k + 1)[j] == mm);
                        }
                    }
                }
                assert forall|j: int| 0 <= j < k + 1 implies self.entries()[#[trigger] idx[j] as int].energy == shares@[j] by {
                    if j < k {
                        assert(idx[j] != idx[k as int]);
                    }
                }
            }
            k = k + 1;
        }
        proof {
            assert(idx.take(n as int) =~= idx);
            assert(shares@.take(n as int) =~= shares@);
            lemma_energy_at_values(self.entries(), idx, shares@);
            assert forall|m: int| 0 <= m < self.entries().len() && !listed(component@, m)
                implies #[trigger] self.entries()[m] == old_entries[m] by {
                assert(idx.take(n as int) =~= idx);
            }
        }
        (changed, e)
    }
}

} // verus!
