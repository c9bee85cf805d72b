//! Counts, sums and maxima over sequences, the measures that summaries and
//! conservation laws are stated in.
use vstd::prelude::*;

verus! {

/// How many items of `s` satisfy `p`.
pub open spec fn count_where<A>(s: Seq<A>, p: spec_fn(A) -> bool) -> nat
    decreases s.len(),
{
    if s.len() == 0 {
        0
    } else {
        count_where(s.drop_last(), p) + (if p(s.last()) { 1nat } else { 0nat })
    }
}

/// The sum of `f` over the items of `s`.
pub open spec fn sum_of<A>(s: Seq<A>, f: spec_fn(A) -> nat) -> nat
    decreases s.len(),
{
    if s.len() == 0 {
        0
    } else {
        sum_of(s.drop_last(), f) + f(s.last())
    }
}

/// The largest value of `f` over the items of `s`, or zero.
pub open spec fn max_of<A>(s: Seq<A>, f: spec_fn(A) -> nat) -> nat
    decreases s.len(),
{
    if s.len() == 0 {
        0
    } else {
        let rest = max_of(s.drop_last(), f);
        if f(s.last()) > rest { f(s.last()) } else { rest }
    }
}

pub proof fn lemma_count_where_bound<A>(s: Seq<A>, p: spec_fn(A) -> bool)
    ensures
        count_where(s, p) <= s.len(),
    decreases s.len(),
{
    if s.len() > 0 {
        lemma_count_where_bound(s.drop_last(), p);
    }
}

pub proof fn lemma_prefix_step<A>(s: Seq<A>, k: int, p: spec_fn(A) -> bool, f: spec_fn(A) -> nat)
    requires
        0 <= k < s.len(),
    ensures
        count_where(s.take(k + 1), p) == count_where(s.take(k), p) + (if p(s[k]) { 1nat } else { 0nat }),
        sum_of(s.take(k + 1), f) == sum_of(s.take(k), f) + f(s[k]),
        max_of(s.take(k + 1), f) == (if f(s[k]) > max_of(s.take(k), f) { f(s[k]) } else { max_of(s.take(k), f) }),
{
    let t = s.take(k + 1);
    assert(t.drop_last() =~= s.take(k));
    assert(t.last() == s[k]);
}

/// Replacing one item changes a sum by the difference of the two values.
pub proof fn lemma_sum_update<A>(s: Seq<A>, i: int, v: A, f: spec_fn(A) -> nat)
    requires
        0 <= i < s.len(),
    ensures
        sum_of(s.update(i, v), f) + f(s[i]) == sum_of(s, f) + f(v),
    decreases s.len(),
{
    let t = s.update(i, v);
    if i == s.len() - 1 {
        assert(t.drop_last() =~= s.drop_last());
    } else {
        assert(t.drop_last() =~= s.drop_last().update(i, v));
        lemma_sum_update(s.drop_last(), i, v, f);
    }
}

/// A sum over a sequence with one more item at its end.
pub proof fn lemma_sum_push<A>(s: Seq<A>, v: A, f: spec_fn(A) -> nat)
    ensures
        sum_of(s.push(v), f) == sum_of(s, f) + f(v),
{
    assert(s.push(v).drop_last() =~= s);
}

/// Sums that agree item by item are equal.
pub proof fn lemma_sum_pointwise<A>(s: Seq<A>, t: Seq<A>, f: spec_fn(A) -> nat, g: spec_fn(A) -> nat)
    requires
        s.len() == t.len(),
        forall|i: int| 0 <= i < s.len() ==> f(s[i]) == g(#[trigger] t[i]),
    ensures
        sum_of(s, f) == sum_of(t, g),
    decreases s.len(),
{
    if s.len() > 0 {
        lemma_sum_pointwise(s.drop_last(), t.drop_last(), f, g);
    }
}

/// Sums where each item weighs at most as much as before are no larger.
pub proof fn lemma_sum_le<A>(s: Seq<A>, t: Seq<A>, f: spec_fn(A) -> nat, g: spec_fn(A) -> nat)
    requires
        s.len() == t.len(),
        forall|i: int| 0 <= i < s.len() ==> f(s[i]) <= g(#[trigger] t[i]),
    ensures
        sum_of(s, f) <= sum_of(t, g),
    decreases s.len(),
{
    if s.len() > 0 {
        lemma_sum_le(s.drop_last(), t.drop_last(), f, g);
    }
}

/// Each item weighs no more than the whole sum.
pub proof fn lemma_sum_item_le<A>(s: Seq<A>, i: int, f: spec_fn(A) -> nat)
    requires
        0 <= i < s.len(),
    ensures
        f(s[i]) <= sum_of(s, f),
    decreases s.len(),
{
    if i < s.len() - 1 {
        lemma_sum_item_le(s.drop_last(), i, f);
    }
}

/// The position of the first item of `s` that satisfies `p`, if any.
pub open spec fn first_index<A>(s: Seq<A>, p: spec_fn(A) -> bool) -> Option<int>
    decreases s.len(),
{
    if s.len() == 0 {
        None
    } else {
        match first_index(s.drop_last(), p) {
            Some(i) => Some(i),
            None => if p(s.last()) { Some(s.len() - 1) } else { None },
        }
    }
}

/// The first satisfying item is the one before which none satisfies.
pub proof fn lemma_first_index<A>(s: Seq<A>, p: spec_fn(A) -> bool, k: int)
    requires
        0 <= k <= s.len(),
        forall|j: int| 0 <= j < k ==> !p(#[trigger] s[j]),
    ensures
        k < s.len() && p(s[k]) ==> first_index(s, p) == Some(k),
        k == s.len() ==> first_index(s, p) is None,
    decreases s.len(),
{
    if s.len() > 0 {
        if k < s.len() {
            if p(s[k]) {
                if k < s.len() - 1 {
                    lemma_first_index(s.drop_last(), p, k);
                } else {
                    lemma_first_index(s.drop_last(), p, k);
                }
            }
        } else {
            lemma_first_index(s.drop_last(), p, k - 1);
        }
    }
}

/// Sequences whose items satisfy two tests alike, position by position, have
/// the same first satisfying position.
pub proof fn lemma_first_index_pointwise<A, B>(s: Seq<A>, p: spec_fn(A) -> bool, t: Seq<B>, q: spec_fn(B) -> bool)
    requires
        s.len() == t.len(),
        forall|i: int| 0 <= i < s.len() ==> p(#[trigger] s[i]) == q(t[i]),
    ensures
        first_index(s, p) == first_index(t, q),
    decreases s.len(),
{
    if s.len() > 0 {
        assert(p(s[s.len() - 1]) == q(t[t.len() - 1]));
        lemma_first_index_pointwise(s.drop_last(), p, t.drop_last(), q);
    }
}

} // verus!
