//! Accumulated byte totals keyed by logical connection.
//!
//! `ConnTotals` is the mapping `Connection -> accumulated byte count` used
//! both for the cumulative snapshot a poll returns and for the archive of
//! flows already evicted from the raw table. Entries are keyed uniquely and
//! accumulate-only; the sum of all stored values always fits in a `u64`, so
//! accumulation never overflows.

use vstd::prelude::*;

use crate::flow::Connection;
use crate::sums::{
    lemma_sum_by_le, lemma_sum_by_nonneg, lemma_sum_by_push, lemma_sum_by_take_le,
    lemma_sum_by_take_step, lemma_sum_by_update, sum_by,
};

verus! {

/// Weight of one entry towards connection `c`: its value if it is keyed by
/// `c`, zero otherwise.
pub open spec fn conn_weight(c: Connection) -> spec_fn((Connection, u64)) -> int {
    |e: (Connection, u64)| if e.0 == c { e.1 as int } else { 0 }
}

/// Weight of one entry towards the grand total: its value.
pub open spec fn value_weight() -> spec_fn((Connection, u64)) -> int {
    |e: (Connection, u64)| e.1 as int
}

/// The total recorded for connection `c`: the sum of every entry keyed by
/// `c` (with unique keys, the single stored value, or zero if absent).
pub open spec fn totals_sum(s: Seq<(Connection, u64)>, c: Connection) -> int {
    sum_by(s, conn_weight(c))
}

/// The sum of every stored value.
pub open spec fn totals_value_sum(s: Seq<(Connection, u64)>) -> int {
    sum_by(s, value_weight())
}

/// Whether some entry is keyed by `c`.
pub open spec fn totals_contains(s: Seq<(Connection, u64)>, c: Connection) -> bool {
    exists|i: int| 0 <= i < s.len() && s[i].0 == c
}

/// Whether no two entries share a key.
pub open spec fn totals_keys_unique(s: Seq<(Connection, u64)>) -> bool {
    forall|i: int, j: int| 0 <= i < j < s.len() ==> s[i].0 != s[j].0
}

/// The total for one connection never exceeds the sum of all values, and
/// both are nonnegative.
pub proof fn lemma_totals_sum_bounds(s: Seq<(Connection, u64)>, c: Connection)
    ensures
        0 <= totals_sum(s, c),
        totals_sum(s, c) <= totals_value_sum(s),
        0 <= totals_value_sum(s),
{
    lemma_sum_by_nonneg(s, conn_weight(c));
    lemma_sum_by_le(s, conn_weight(c), value_weight());
    lemma_sum_by_nonneg(s, value_weight());
}

/// One step through an entry list: a longer prefix contains exactly one
/// more entry's key.
pub proof fn lemma_totals_contains_take_step(s: Seq<(Connection, u64)>, j: int)
    requires
        0 <= j < s.len(),
    ensures
        forall|c: Connection| #[trigger] totals_contains(s.take(j + 1), c) <==> (totals_contains(
            s.take(j),
            c,
        ) || s[j].0 == c),
{
    let s1 = s.take(j + 1);
    let s0 = s.take(j);
    assert(forall|i: int| 0 <= i < s1.len() ==> s1[i] == s[i]);
    assert(forall|i: int| 0 <= i < s0.len() ==> s0[i] == s[i]);
    assert forall|c: Connection| #[trigger] totals_contains(s1, c) <==> (totals_contains(s0, c)
        || s[j].0 == c) by {
        if totals_contains(s1, c) {
            let w = choose|i: int| 0 <= i < s1.len() && s1[i].0 == c;
            if w < j {
                assert(totals_contains(s0, c));
            } else {
                assert(s1[w] == s[j]);
            }
        }
        if totals_contains(s0, c) {
            let w = choose|i: int| 0 <= i < s0.len() && s0[i].0 == c;
            assert(s1[w] == s0[w]);
            assert(totals_contains(s1, c));
        }
        if s[j].0 == c {
            assert(s1[j].0 == c);
            assert(totals_contains(s1, c));
        }
    }
}

/// An entry keyed by `c` contributes at most the whole total for `c`.
pub proof fn lemma_entry_le_total(s: Seq<(Connection, u64)>, i: int, c: Connection)
    requires
        0 <= i < s.len(),
        s[i].0 == c,
    ensures
        s[i].1 as int <= totals_sum(s, c),
{
    let w = conn_weight(c);
    assert(forall|j: int| 0 <= j < s.len() ==> #[trigger] w(s[j]) >= 0);
    lemma_sum_by_take_step(s, i, w);
    assert(forall|j: int| 0 <= j < s.take(i).len() ==> #[trigger] w(s.take(i)[j]) >= 0) by {
        assert(forall|j: int| 0 <= j < s.take(i).len() ==> s.take(i)[j] == s[j]);
    }
    lemma_sum_by_nonneg(s.take(i), w);
    lemma_sum_by_take_le(s, i + 1, w);
    assert(w(s[i]) == s[i].1 as int);
}

/// The mapping `Connection -> accumulated byte count`.
pub struct ConnTotals {
    entries: Vec<(Connection, u64)>,
}

impl ConnTotals {
    /// The sequence of keyed entries this mapping holds.
    pub closed spec fn view(&self) -> Seq<(Connection, u64)> {
        self.entries@
    }

    /// Well-formed: keys are unique and the values sum to at most
    /// `u64::MAX`, so further accumulation within that bound cannot
    /// overflow any single entry.
    pub open spec fn wf(&self) -> bool {
        &&& totals_keys_unique(self@)
        &&& totals_value_sum(self@) <= u64::MAX
    }

    /// An empty mapping.
    pub fn new() -> (r: ConnTotals)
        ensures
            r.wf(),
            r@ == Seq::<(Connection, u64)>::empty(),
    {
        let r = ConnTotals { entries: Vec::new() };
        proof {
            assert(r@ =~= Seq::<(Connection, u64)>::empty());
        }
        r
    }

    /// How many connections have a recorded total.
    pub fn len(&self) -> (r: usize)
        ensures
            r == self@.len(),
    {
        self.entries.len()
    }

    /// The entry at position `i`.
    pub fn entry_at(&self, i: usize) -> (r: (Connection, u64))
        requires
            i < self@.len(),
        ensures
            r == self@[i as int],
    {
        self.entries[i]
    }

    /// Accumulate `bytes` into the total for `c`, creating the entry if it
    /// is absent. Every other connection's total is untouched.
    pub fn add(&mut self, c: Connection, bytes: u64)
        requires
            old(self).wf(),
            totals_value_sum(old(self)@) + bytes <= u64::MAX,
        ensures
            final(self).wf(),
            totals_value_sum(final(self)@) == totals_value_sum(old(self)@) + bytes,
            forall|x: Connection| #[trigger]
                totals_sum(final(self)@, x) == totals_sum(old(self)@, x)
                    + if x == c { bytes as int } else { 0 },
            forall|x: Connection| #[trigger]
                totals_contains(final(self)@, x) <==> (totals_contains(old(self)@, x) || x == c),
    {
        let ghost s0 = self@;
        let n = self.entries.len();
        let mut i: usize = 0;
        while i < n
            invariant
                n == s0.len(),
                self@ == s0,
                s0 == old(self)@,
                i <= n,
                totals_keys_unique(s0),
                totals_value_sum(s0) + bytes <= u64::MAX,
                forall|j: int| 0 <= j < i ==> s0[j].0 != c,
            decreases n - i,
        {
            let (key, val) = self.entries[i];
            if key == c {
                proof {
                    // the stored value is part of this connection's total,
                    // which is bounded by the grand total
                    lemma_entry_le_total(s0, i as int, c);
                    lemma_totals_sum_bounds(s0, c);
                    assert(val as int <= totals_value_sum(s0));
                }
                let updated: u64 = val + bytes;
                self.entries.set(i, (c, updated));
                proof {
                    lemma_sum_by_update(s0, i as int, (c, updated), value_weight());
                    assert(value_weight()(s0[i as int]) == val as int);
                    assert(value_weight()((c, updated)) == updated as int);
                    assert forall|x: Connection| #[trigger]
                        totals_sum(self@, x) == totals_sum(s0, x)
                            + if x == c { bytes as int } else { 0 } by {
                        lemma_sum_by_update(s0, i as int, (c, updated), conn_weight(x));
                        assert(conn_weight(x)(s0[i as int])
                            == if x == c { val as int } else { 0 });
                        assert(conn_weight(x)((c, updated))
                            == if x == c { updated as int } else { 0 });
                    }
                    assert forall|x: Connection| #[trigger]
                        totals_contains(self@, x) <==> (totals_contains(s0, x) || x == c) by {
                        assert(self@[i as int].0 == c);
                        assert(forall|j: int|
                            0 <= j < self@.len() && j != i ==> self@[j] == s0[j]);
                        assert(s0[i as int].0 == c);
                    }
                    assert(totals_keys_unique(self@)) by {
                        assert(forall|j: int|
                            0 <= j < self@.len() ==> self@[j].0 == s0[j].0);
                    }
                }
                return;
            }
            i += 1;
        }
        // absent: create the entry
        self.entries.push((c, bytes));
        proof {
            lemma_sum_by_push(s0, (c, bytes), value_weight());
            assert forall|x: Connection| #[trigger]
                totals_sum(self@, x) == totals_sum(s0, x)
                    + if x == c { bytes as int } else { 0 } by {
                lemma_sum_by_push(s0, (c, bytes), conn_weight(x));
            }
            assert forall|x: Connection| #[trigger]
                totals_contains(self@, x) <==> (totals_contains(s0, x) || x == c) by {
                assert(self@[s0.len() as int].0 == c);
                assert(forall|j: int| 0 <= j < s0.len() ==> self@[j] == s0[j]);
            }
            assert(totals_keys_unique(self@)) by {
                assert(forall|j: int| 0 <= j < s0.len() ==> self@[j] == s0[j]);
                assert(self@[s0.len() as int].0 == c);
            }
        }
    }

    /// The recorded total for `c`, or zero when `c` has no entry.
    pub fn total(&self, c: Connection) -> (r: u64)
        requires
            self.wf(),
        ensures
            r as int == totals_sum(self@, c),
    {
        let ghost s = self@;
        let n = self.entries.len();
        let mut acc: u64 = 0;
        let mut i: usize = 0;
        while i < n
            invariant
                self.wf(),
                s == self@,
                n == s.len(),
                i <= n,
                acc as int == totals_sum(s.take(i as int), c),
            decreases n - i,
        {
            let (key, val) = self.entries[i];
            proof {
                lemma_sum_by_take_step(s, i as int, conn_weight(c));
                lemma_totals_sum_bounds(s.take(i as int + 1), c);
                lemma_sum_by_take_le(s, i as int + 1, conn_weight(c));
                lemma_totals_sum_bounds(s, c);
            }
            if key == c {
                acc = acc + val;
            }
            i += 1;
        }
        proof {
            assert(s.take(n as int) =~= s);
        }
        acc
    }

    /// Whether `c` has a recorded total.
    pub fn contains(&self, c: Connection) -> (r: bool)
        ensures
            r == totals_contains(self@, c),
    {
        let n = self.entries.len();
        let mut i: usize = 0;
        while i < n
            invariant
                n == self@.len(),
                i <= n,
                forall|j: int| 0 <= j < i ==> self@[j].0 != c,
            decreases n - i,
        {
            let (key, _) = self.entries[i];
            if key == c {
                return true;
            }
            i += 1;
        }
        false
    }
}

impl Clone for ConnTotals {
    /// A clone holds the same entries.
    fn clone(&self) -> (r: Self)
        ensures
            r@ == self@,
    {
        let mut entries: Vec<(Connection, u64)> = Vec::new();
        let n = self.entries.len();
        let mut i: usize = 0;
        while i < n
            invariant
                n == self@.len(),
                i <= n,
                entries@ =~= self@.take(i as int),
            decreases n - i,
        {
            entries.push(self.entries[i]);
            proof {
                assert(entries@ =~= self@.take(i as int + 1));
            }
            i += 1;
        }
        proof {
            assert(entries@ =~= self@);
        }
        ConnTotals { entries }
    }
}

} // verus!
