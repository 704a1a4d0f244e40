//! The raw connection table: a model of the fixed-capacity, kernel-shared
//! keyed table of `(socket flow key) -> (byte counter, activity flag)`.
//!
//! The kernel side guarantees only single-entry atomicity: get, insert and
//! remove are atomic per key, and no cross-key consistency holds across a
//! scan. The table is therefore modelled as a keyed sequence of entries
//! with unique keys; the caller that mirrors a kernel table into it owns
//! the snapshot semantics.

use vstd::prelude::*;

use crate::flow::{RawFlowKey, RawFlowStats};

verus! {

/// Whether no two entries share a key.
pub open spec fn table_keys_unique(s: Seq<(RawFlowKey, RawFlowStats)>) -> bool {
    forall|i: int, j: int| 0 <= i < j < s.len() ==> s[i].0 != s[j].0
}

/// Whether some entry is keyed by `k`.
pub open spec fn table_contains_key(s: Seq<(RawFlowKey, RawFlowStats)>, k: RawFlowKey) -> bool {
    exists|i: int| 0 <= i < s.len() && s[i].0 == k
}

/// The position of the entry keyed by `k` (meaningful when one exists;
/// with unique keys it is the only one).
pub open spec fn table_index_of(s: Seq<(RawFlowKey, RawFlowStats)>, k: RawFlowKey) -> int {
    choose|i: int| 0 <= i < s.len() && s[i].0 == k
}

/// The stats stored under `k`, if any.
pub open spec fn table_lookup(
    s: Seq<(RawFlowKey, RawFlowStats)>,
    k: RawFlowKey,
) -> Option<RawFlowStats> {
    if table_contains_key(s, k) {
        Some(s[table_index_of(s, k)].1)
    } else {
        None
    }
}

/// The raw connection table.
pub struct RawTable {
    entries: Vec<(RawFlowKey, RawFlowStats)>,
}

impl RawTable {
    /// The sequence of keyed entries this table holds.
    pub closed spec fn view(&self) -> Seq<(RawFlowKey, RawFlowStats)> {
        self.entries@
    }

    /// Well-formed: keys are unique.
    pub open spec fn wf(&self) -> bool {
        table_keys_unique(self@)
    }

    /// An empty table.
    pub fn new() -> (r: RawTable)
        ensures
            r.wf(),
            r@ == Seq::<(RawFlowKey, RawFlowStats)>::empty(),
    {
        let r = RawTable { entries: Vec::new() };
        proof {
            assert(r@ =~= Seq::<(RawFlowKey, RawFlowStats)>::empty());
        }
        r
    }

    /// A table holding exactly the given entries, whose keys must be
    /// pairwise distinct.
    pub fn from_entries(entries: Vec<(RawFlowKey, RawFlowStats)>) -> (r: RawTable)
        requires
            table_keys_unique(entries@),
        ensures
            r.wf(),
            r@ == entries@,
    {
        RawTable { entries }
    }

    /// How many flows the table holds.
    pub fn len(&self) -> (r: usize)
        ensures
            r == self@.len(),
    {
        self.entries.len()
    }

    /// The entry at position `i`.
    pub fn entry_at(&self, i: usize) -> (r: (RawFlowKey, RawFlowStats))
        requires
            i < self@.len(),
        ensures
            r == self@[i as int],
    {
        self.entries[i]
    }

    /// The stats stored under `key`, if any.
    pub fn get(&self, key: RawFlowKey) -> (r: Option<RawFlowStats>)
        requires
            self.wf(),
        ensures
            r == table_lookup(self@, key),
    {
        let n = self.entries.len();
        let mut i: usize = 0;
        while i < n
            invariant
                self.wf(),
                n == self@.len(),
                i <= n,
                forall|j: int| 0 <= j < i ==> self@[j].0 != key,
            decreases n - i,
        {
            let (k, stats) = self.entries[i];
            if k == key {
                proof {
                    assert(table_contains_key(self@, key));
                    let w = table_index_of(self@, key);
                    assert(0 <= w < self@.len() && self@[w].0 == key);
                    assert(w == i as int);
                }
                return Some(stats);
            }
            i += 1;
        }
        proof {
            assert(!table_contains_key(self@, key));
        }
        None
    }

    /// Store `stats` under `key`, replacing any existing entry for it:
    /// every other key's entry is untouched.
    pub fn insert(&mut self, key: RawFlowKey, stats: RawFlowStats)
        requires
            old(self).wf(),
        ensures
            final(self).wf(),
            table_lookup(final(self)@, key) == Some(stats),
            forall|k2: RawFlowKey|
                k2 != key ==> #[trigger] table_lookup(final(self)@, k2)
                    == table_lookup(old(self)@, k2),
            final(self)@.len() == old(self)@.len()
                + if table_contains_key(old(self)@, key) { 0int } else { 1int },
    {
        let ghost s0 = self@;
        let n = self.entries.len();
        let mut i: usize = 0;
        while i < n
            invariant
                self@ == s0,
                s0 == old(self)@,
                table_keys_unique(s0),
                n == s0.len(),
                i <= n,
                forall|j: int| 0 <= j < i ==> s0[j].0 != key,
            decreases n - i,
        {
            let (k, _) = self.entries[i];
            if k == key {
                self.entries.set(i, (key, stats));
                proof {
                    assert(forall|j: int|
                        0 <= j < self@.len() ==> self@[j].0 == s0[j].0);
                    assert(table_keys_unique(self@));
                    lemma_lookup_after_point_change(s0, self@, i as int, key);
                    assert(table_contains_key(s0, key));
                }
                return;
            }
            i += 1;
        }
        proof {
            assert(!table_contains_key(s0, key));
            lemma_lookup_after_push(s0, key, stats);
        }
        self.entries.push((key, stats));
        proof {
            assert(self@ =~= s0.push((key, stats)));
        }
    }

    /// Remove the entry stored under `key`, if any: every other key's
    /// entry is untouched.
    pub fn remove(&mut self, key: RawFlowKey)
        requires
            old(self).wf(),
        ensures
            final(self).wf(),
            table_lookup(final(self)@, key) is None,
            forall|k2: RawFlowKey|
                k2 != key ==> #[trigger] table_lookup(final(self)@, k2)
                    == table_lookup(old(self)@, k2),
            final(self)@.len() == old(self)@.len()
                - if table_contains_key(old(self)@, key) { 1int } else { 0int },
    {
        let ghost s0 = self@;
        let n = self.entries.len();
        let mut i: usize = 0;
        while i < n
            invariant
                self@ == s0,
                s0 == old(self)@,
                table_keys_unique(s0),
                n == s0.len(),
                i <= n,
                forall|j: int| 0 <= j < i ==> s0[j].0 != key,
            decreases n - i,
        {
            let (k, _) = self.entries[i];
            if k == key {
                self.entries.remove(i);
                proof {
                    assert(self@ =~= s0.take(i as int) + s0.skip(i as int + 1));
                    lemma_lookup_after_removal(s0, self@, i as int, key);
                }
                return;
            }
            i += 1;
        }
        proof {
            assert(!table_contains_key(s0, key));
            assert forall|k2: RawFlowKey|
                k2 != key implies #[trigger] table_lookup(self@, k2)
                    == table_lookup(s0, k2) by {}
        }
    }
}

impl Clone for RawTable {
    /// A clone holds the same entries.
    fn clone(&self) -> (r: Self)
        ensures
            r@ == self@,
    {
        let mut entries: Vec<(RawFlowKey, RawFlowStats)> = Vec::new();
        let n = self.entries.len();
        let mut i: usize = 0;
        while i < n
            invariant
                n == self@.len(),
                i <= n,
                entries@ =~= self@.take(i as int),
            decreases n - i,
        {
            entries.push(self.entries[i]);
            proof {
                assert(entries@ =~= self@.take(i as int + 1));
            }
            i += 1;
        }
        proof {
            assert(entries@ =~= self@);
        }
        RawTable { entries }
    }
}

/// After replacing only the entry at `i`, which was and stays keyed by
/// `key`, in a unique-keyed sequence, lookups for all other keys are
/// unchanged.
proof fn lemma_lookup_after_point_change(
    s0: Seq<(RawFlowKey, RawFlowStats)>,
    s1: Seq<(RawFlowKey, RawFlowStats)>,
    i: int,
    key: RawFlowKey,
)
    requires
        s0.len() == s1.len(),
        0 <= i < s1.len(),
        s0[i].0 == key,
        s1[i].0 == key,
        table_keys_unique(s1),
        forall|j: int| 0 <= j < s0.len() && j != i ==> s0[j] == s1[j],
    ensures
        table_lookup(s1, key) == Some(s1[i].1),
        forall|k2: RawFlowKey|
            k2 != key ==> #[trigger] table_lookup(s1, k2) == table_lookup(s0, k2),
{
    assert(table_contains_key(s1, key));
    let w = table_index_of(s1, key);
    assert(0 <= w < s1.len() && s1[w].0 == key);
    assert(w == i);
    assert forall|k2: RawFlowKey|
        k2 != key implies #[trigger] table_lookup(s1, k2) == table_lookup(s0, k2) by {
        if table_contains_key(s0, k2) {
            let w0 = table_index_of(s0, k2);
            assert(0 <= w0 < s0.len() && s0[w0].0 == k2);
            assert(w0 != i);
            assert(s1[w0].0 == k2);
            assert(table_contains_key(s1, k2));
            let w1 = table_index_of(s1, k2);
            assert(0 <= w1 < s1.len() && s1[w1].0 == k2);
            assert(w1 == w0);
            assert(s0[w0] == s1[w1]);
        } else {
            if table_contains_key(s1, k2) {
                let w1 = table_index_of(s1, k2);
                assert(0 <= w1 < s1.len() && s1[w1].0 == k2);
                assert(w1 != i);
                assert(s0[w1].0 == k2);
            }
        }
    }
}

/// Appending an entry under a fresh key leaves every other key's lookup
/// unchanged.
proof fn lemma_lookup_after_push(
    s0: Seq<(RawFlowKey, RawFlowStats)>,
    key: RawFlowKey,
    stats: RawFlowStats,
)
    requires
        table_keys_unique(s0),
        !table_contains_key(s0, key),
    ensures
        table_keys_unique(s0.push((key, stats))),
        table_lookup(s0.push((key, stats)), key) == Some(stats),
        forall|k2: RawFlowKey|
            k2 != key ==> #[trigger] table_lookup(s0.push((key, stats)), k2)
                == table_lookup(s0, k2),
{
    let s1 = s0.push((key, stats));
    assert(s1[s0.len() as int] == (key, stats));
    assert(forall|j: int| 0 <= j < s0.len() ==> s1[j] == s0[j]);
    assert(table_keys_unique(s1));
    assert(table_contains_key(s1, key));
    let w = table_index_of(s1, key);
    assert(0 <= w < s1.len() && s1[w].0 == key);
    assert(w == s0.len() as int);
    assert forall|k2: RawFlowKey|
        k2 != key implies #[trigger] table_lookup(s1, k2) == table_lookup(s0, k2) by {
        if table_contains_key(s0, k2) {
            let w0 = table_index_of(s0, k2);
            assert(0 <= w0 < s0.len() && s0[w0].0 == k2);
            assert(s1[w0].0 == k2);
            assert(table_contains_key(s1, k2));
            let w1 = table_index_of(s1, k2);
            assert(0 <= w1 < s1.len() && s1[w1].0 == k2);
            assert(w1 == w0);
        } else {
            if table_contains_key(s1, k2) {
                let w1 = table_index_of(s1, k2);
                assert(0 <= w1 < s1.len() && s1[w1].0 == k2);
                assert(w1 != s0.len());
                assert(s0[w1].0 == k2);
            }
        }
    }
}

/// After removing the entry at `i` (keyed by `key`) from a unique-keyed
/// sequence, `key` is absent, all other lookups are unchanged, and keys
/// stay unique.
proof fn lemma_lookup_after_removal(
    s0: Seq<(RawFlowKey, RawFlowStats)>,
    s1: Seq<(RawFlowKey, RawFlowStats)>,
    i: int,
    key: RawFlowKey,
)
    requires
        table_keys_unique(s0),
        0 <= i < s0.len(),
        s0[i].0 == key,
        s1 == s0.remove(i),
    ensures
        table_keys_unique(s1),
        table_lookup(s1, key) is None,
        forall|k2: RawFlowKey|
            k2 != key ==> #[trigger] table_lookup(s1, k2) == table_lookup(s0, k2),
{
    assert(s1.len() == s0.len() - 1);
    assert(forall|j: int| 0 <= j < i ==> s1[j] == s0[j]);
    assert(forall|j: int| i <= j < s1.len() ==> s1[j] == s0[j + 1]);
    assert(table_keys_unique(s1));
    assert(!table_contains_key(s1, key)) by {
        if table_contains_key(s1, key) {
            let w = table_index_of(s1, key);
            assert(0 <= w < s1.len() && s1[w].0 == key);
            if w < i {
                assert(s0[w].0 == key);
            } else {
                assert(s0[w + 1].0 == key);
            }
        }
    }
    assert forall|k2: RawFlowKey|
        k2 != key implies #[trigger] table_lookup(s1, k2) == table_lookup(s0, k2) by {
        if table_contains_key(s0, k2) {
            let w0 = table_index_of(s0, k2);
            assert(0 <= w0 < s0.len() && s0[w0].0 == k2);
            assert(w0 != i);
            let w1: int = if w0 < i { w0 } else { w0 - 1 };
            assert(s1[w1] == s0[w0]);
            assert(table_contains_key(s1, k2));
            let wa = table_index_of(s1, k2);
            assert(0 <= wa < s1.len() && s1[wa].0 == k2);
            assert(wa == w1);
        } else {
            if table_contains_key(s1, k2) {
                let wa = table_index_of(s1, k2);
                assert(0 <= wa < s1.len() && s1[wa].0 == k2);
                if wa < i {
                    assert(s0[wa].0 == k2);
                } else {
                    assert(s0[wa + 1].0 == k2);
                }
            }
        }
    }
}

} // verus!
