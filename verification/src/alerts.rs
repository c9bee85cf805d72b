//! Per-object alert histories: the newest distinct messages, each with the
//! tick at which it last occurred.
use vstd::prelude::*;
use crate::text::string_equals;

verus! {

/// The most alerts an object keeps.
pub const MAX_OBJECT_ALERTS: usize = 10;

#[derive(Clone, Debug, PartialEq, Eq)]
pub struct AlertEntry {
    pub tick: u64,
    pub message: String,
}

impl View for AlertEntry {
    type V = (u64, Seq<char>);

    open spec fn view(&self) -> (u64, Seq<char>) {
        (self.tick, self.message@)
    }
}

/// The alerts of one object, oldest first.
#[derive(Clone, Debug, PartialEq, Eq)]
pub struct AlertHistory {
    pub entries: Vec<AlertEntry>,
}

impl View for AlertHistory {
    type V = Seq<(u64, Seq<char>)>;

    open spec fn view(&self) -> Seq<(u64, Seq<char>)> {
        self.entries@.map_values(|e: AlertEntry| e@)
    }
}

/// `s` without its first entry whose message is `message`.
pub open spec fn without_first(s: Seq<(u64, Seq<char>)>, message: Seq<char>) -> Seq<(u64, Seq<char>)>
    decreases s.len(),
{
    if s.len() == 0 {
        s
    } else if s[0].1 == message {
        s.drop_first()
    } else {
        seq![s[0]] + without_first(s.drop_first(), message)
    }
}

/// The newest `MAX_OBJECT_ALERTS` entries of `s`.
pub open spec fn newest(s: Seq<(u64, Seq<char>)>) -> Seq<(u64, Seq<char>)> {
    if s.len() > MAX_OBJECT_ALERTS { s.skip(s.len() - MAX_OBJECT_ALERTS) } else { s }
}

/// The history after recording `message` at `tick`: an earlier entry with the
/// same message leaves, the new entry comes last, and only the newest ten stay.
pub open spec fn recorded(s: Seq<(u64, Seq<char>)>, tick: u64, message: Seq<char>) -> Seq<(u64, Seq<char>)> {
    newest(without_first(s, message).push((tick, message)))
}

/// No two entries carry the same message.
pub open spec fn distinct_messages(s: Seq<(u64, Seq<char>)>) -> bool {
    forall|i: int, j: int| 0 <= i < j < s.len() ==> s[i].1 != s[j].1
}

proof fn lemma_without_first_at(s: Seq<(u64, Seq<char>)>, message: Seq<char>, k: int)
    requires
        0 <= k < s.len(),
        s[k].1 == message,
        forall|j: int| 0 <= j < k ==> s[j].1 != message,
    ensures
        without_first(s, message) == s.remove(k),
    decreases s.len(),
{
    if k == 0 {
        assert(s.drop_first() =~= s.remove(0));
    } else {
        lemma_without_first_at(s.drop_first(), message, k - 1);
        assert(seq![s[0]] + s.drop_first().remove(k - 1) =~= s.remove(k));
    }
}

proof fn lemma_without_first_absent(s: Seq<(u64, Seq<char>)>, message: Seq<char>)
    requires
        forall|j: int| 0 <= j < s.len() ==> s[j].1 != message,
    ensures
        without_first(s, message) == s,
    decreases s.len(),
{
    if s.len() > 0 {
        lemma_without_first_absent(s.drop_first(), message);
        assert(seq![s[0]] + s.drop_first() =~= s);
    }
}

impl Default for AlertHistory {
    fn default() -> (r: Self)
        ensures
            r@.len() == 0,
    {
        AlertHistory::new()
    }
}

impl AlertHistory {
    pub fn new() -> (r: Self)
        ensures
            r@.len() == 0,
    {
        let r = AlertHistory { entries: Vec::new() };
        assert(r@ =~= Seq::<(u64, Seq<char>)>::empty());
        r
    }

    /// Records `message` at `tick`.
    pub fn record(&mut self, tick: u64, message: &str)
        ensures
            final(self)@ == recorded(old(self)@, tick, message@),
    {
        let ghost s = self@;
        let mut index: usize = 0;
        let mut found = false;
        while index < self.entries.len()
            invariant_except_break
                !found,
            invariant
                self@ == s,
                index <= self.entries@.len(),
                forall|j: int| 0 <= j < index ==> s[j].1 != message@,
            ensures
                self@ == s,
                found ==> index < self.entries@.len() && s[index as int].1 == message@,
                !found ==> index == self.entries@.len(),
                forall|j: int| 0 <= j < index ==> s[j].1 != message@,
            decreases self.entries@.len() - index,
        {
            if string_equals(&self.entries[index].message, message) {
                assert(s[index as int] == self.entries@[index as int]@);
                found = true;
                break;
            }
            index = index + 1;
        }
        if found {
            proof { lemma_without_first_at(s, message@, index as int); }
            self.entries.remove(index);
            assert(self@ =~= s.remove(index as int));
        } else {
            proof { lemma_without_first_absent(s, message@); }
        }
        let entry = AlertEntry { tick, message: crate::text::text(message) };
        self.entries.push(entry);
        let ghost pushed = without_first(s, message@).push((tick, message@));
        assert(self@ =~= pushed);
        while self.entries.len() > MAX_OBJECT_ALERTS
            invariant
                pushed.len() >= self@.len(),
                self@.len() >= (if pushed.len() > MAX_OBJECT_ALERTS { MAX_OBJECT_ALERTS as int } else { pushed.len() as int }),
                self@ == pushed.skip(pushed.len() - self@.len()),
            decreases self.entries@.len(),
        {
            let ghost before = self@;
            self.entries.remove(0);
            assert(self@ =~= before.drop_first());
            assert(pushed.skip(pushed.len() - self@.len()) =~= before.drop_first());
        }
        proof {
            if pushed.len() <= MAX_OBJECT_ALERTS {
                assert(pushed.skip(0) =~= pushed);
            }
        }
        assert(self@ =~= newest(pushed));
    }

    /// Records each message in turn at `tick`.
    pub fn record_many(&mut self, tick: u64, messages: &Vec<&str>)
        ensures
            final(self)@ == messages@.fold_left(old(self)@, |acc: Seq<(u64, Seq<char>)>, m: &str| recorded(acc, tick, m@)),
    {
        let mut k: usize = 0;
        while k < messages.len()
            invariant
                k <= messages@.len(),
                self@ == messages@.take(k as int).fold_left(old(self)@, |acc: Seq<(u64, Seq<char>)>, m: &str| recorded(acc, tick, m@)),
            decreases messages@.len() - k,
        {
            let ghost before = self@;
            self.record(tick, messages[k]);
            proof {
                let f = |acc: Seq<(u64, Seq<char>)>, m: &str| recorded(acc, tick, m@);
                assert(messages@.take(k + 1).drop_last() =~= messages@.take(k as int));
            }
            k = k + 1;
        }
        assert(messages@.take(messages@.len() as int) =~= messages@);
    }

    /// The newest alert, if any.
    pub fn latest(&self) -> (r: Option<&AlertEntry>)
        ensures
            self@.len() == 0 ==> r is None,
            self@.len() > 0 ==> (r matches Some(e) && e@ == self@.last()),
    {
        if self.entries.len() == 0 {
            None
        } else {
            Some(&self.entries[self.entries.len() - 1])
        }
    }
}

/// Recording keeps at most ten entries, keeps messages distinct, and makes the
/// recorded message the newest entry with the recording tick.
pub proof fn law_record_bounds_and_refreshes(s: Seq<(u64, Seq<char>)>, tick: u64, message: Seq<char>)
    requires
        distinct_messages(s),
    ensures
        recorded(s, tick, message).len() <= MAX_OBJECT_ALERTS,
        recorded(s, tick, message).last() == (tick, message),
        distinct_messages(recorded(s, tick, message)),
        forall|j: int| 0 <= j < recorded(s, tick, message).len() - 1 ==> #[trigger] recorded(s, tick, message)[j].1 != message,
{
    let w = without_first(s, message);
    let first = choose|k: int| 0 <= k < s.len() && s[k].1 == message;
    if exists|k: int| 0 <= k < s.len() && s[k].1 == message {
        assert forall|j: int| 0 <= j < first implies s[j].1 != message by {
            if s[j].1 == message {
                assert(s[j].1 == s[first].1);
            }
        }
        lemma_without_first_at(s, message, first);
        assert(w == s.remove(first));
        assert forall|j: int| 0 <= j < w.len() implies w[j].1 != message by {
            if j < first {
            } else {
                assert(w[j] == s[j + 1]);
                assert(s[j + 1].1 != s[first].1);
            }
        }
    } else {
        lemma_without_first_absent(s, message);
    }
    let p = w.push((tick, message));
    assert(distinct_messages(p));
    let r = newest(p);
    if p.len() > MAX_OBJECT_ALERTS {
        assert(r =~= p.skip(p.len() - MAX_OBJECT_ALERTS));
        assert forall|i: int, j: int| 0 <= i < j < r.len() implies r[i].1 != r[j].1 by {
            assert(r[i] == p[i + p.len() - MAX_OBJECT_ALERTS]);
            assert(r[j] == p[j + p.len() - MAX_OBJECT_ALERTS]);
        }
    }
    assert forall|j: int| 0 <= j < r.len() - 1 implies #[trigger] r[j].1 != message by {
        assert(r[r.len() - 1] == (tick, message));
        assert(r[j].1 != r[r.len() - 1].1);
    }
    assert(w.len() <= s.len());
}

} // verus!

verus! {

impl AlertHistory {
    /// A copy of the history.
    pub fn duplicate(&self) -> (r: Self)
        ensures
            r@ == self@,
    {
        let mut entries: Vec<AlertEntry> = Vec::new();
        let mut k: usize = 0;
        while k < self.entries.len()
            invariant
                k <= self.entries@.len(),
                entries@.len() == k,
                entries@.map_values(|e: AlertEntry| e@) == self@.take(k as int),
            decreases self.entries@.len() - k,
        {
            let e = &self.entries[k];
            let message = e.message.clone();
            let ghost prev = entries@;
            entries.push(AlertEntry { tick: e.tick, message });
            proof {
                assert(entries@ == prev.push(AlertEntry { tick: e.tick, message }));
                assert(self@[k as int] == self.entries@[k as int]@);
                let mapped = entries@.map_values(|e: AlertEntry| e@);
                let prev_mapped = prev.map_values(|e: AlertEntry| e@);
                let target = self@.take(k + 1);
                assert forall|j: int| 0 <= j < k + 1 implies #[trigger] mapped[j] == target[j] by {
                    if j < k {
                        assert(entries@[j] == prev[j]);
                        assert(prev_mapped[j] == self@.take(k as int)[j]);
                    }
                }
            }
            k = k + 1;
            assert(entries@.map_values(|e: AlertEntry| e@) =~= self@.take(k as int));
        }
        assert(self@.take(k as int) =~= self@);
        AlertHistory { entries }
    }
}

} // verus!
