//! The workload identity resolver: a read-only mapping from an IPv4
//! address to the opaque identity of the workload behind it.
//!
//! The engine consumes this mapping to turn the raw endpoints of a socket
//! flow into logical service identities. An address with no entry is an
//! expected transient state, not an error: the raw sample is skipped.

use vstd::prelude::*;

verus! {

/// Whether no two entries share an address.
pub open spec fn resolver_keys_unique(s: Seq<(u32, u64)>) -> bool {
    forall|i: int, j: int| 0 <= i < j < s.len() ==> s[i].0 != s[j].0
}

/// Whether some entry is keyed by `ip`.
pub open spec fn resolver_contains(s: Seq<(u32, u64)>, ip: u32) -> bool {
    exists|i: int| 0 <= i < s.len() && s[i].0 == ip
}

/// The position of the entry keyed by `ip` (meaningful when one exists).
pub open spec fn resolver_index_of(s: Seq<(u32, u64)>, ip: u32) -> int {
    choose|i: int| 0 <= i < s.len() && s[i].0 == ip
}

/// The workload identity recorded for `ip`, if any.
pub open spec fn resolve_spec(s: Seq<(u32, u64)>, ip: u32) -> Option<u64> {
    if resolver_contains(s, ip) {
        Some(s[resolver_index_of(s, ip)].1)
    } else {
        None
    }
}

/// The mapping `IPv4 address -> workload identity`.
pub struct Resolver {
    entries: Vec<(u32, u64)>,
}

impl Resolver {
    /// The sequence of keyed entries this mapping holds.
    pub closed spec fn view(&self) -> Seq<(u32, u64)> {
        self.entries@
    }

    /// Well-formed: addresses are unique.
    pub open spec fn wf(&self) -> bool {
        resolver_keys_unique(self@)
    }

    /// An empty mapping.
    pub fn new() -> (r: Resolver)
        ensures
            r.wf(),
            r@ == Seq::<(u32, u64)>::empty(),
    {
        let r = Resolver { entries: Vec::new() };
        proof {
            assert(r@ =~= Seq::<(u32, u64)>::empty());
        }
        r
    }

    /// Record that `ip` resolves to `workload`, replacing any earlier
    /// entry for the same address.
    pub fn insert(&mut self, ip: u32, workload: u64)
        requires
            old(self).wf(),
        ensures
            final(self).wf(),
            resolve_spec(final(self)@, ip) == Some(workload),
            forall|ip2: u32|
                ip2 != ip ==> #[trigger] resolve_spec(final(self)@, ip2)
                    == resolve_spec(old(self)@, ip2),
    {
        let ghost s0 = self@;
        let n = self.entries.len();
        let mut i: usize = 0;
        while i < n
            invariant
                self@ == s0,
                s0 == old(self)@,
                resolver_keys_unique(s0),
                n == s0.len(),
                i <= n,
                forall|j: int| 0 <= j < i ==> s0[j].0 != ip,
            decreases n - i,
        {
            let (k, _) = self.entries[i];
            if k == ip {
                self.entries.set(i, (ip, workload));
                proof {
                    assert(forall|j: int|
                        0 <= j < self@.len() ==> self@[j].0 == s0[j].0);
                    assert(resolver_keys_unique(self@));
                    lemma_resolve_after_point_change(s0, self@, i as int, ip);
                }
                return;
            }
            i += 1;
        }
        proof {
            assert(!resolver_contains(s0, ip));
            lemma_resolve_after_push(s0, ip, workload);
        }
        self.entries.push((ip, workload));
        proof {
            assert(self@ =~= s0.push((ip, workload)));
        }
    }

    /// The workload identity `ip` resolves to, if any.
    pub fn lookup(&self, ip: u32) -> (r: Option<u64>)
        requires
            self.wf(),
        ensures
            r == resolve_spec(self@, ip),
    {
        let n = self.entries.len();
        let mut i: usize = 0;
        while i < n
            invariant
                self.wf(),
                n == self@.len(),
                i <= n,
                forall|j: int| 0 <= j < i ==> self@[j].0 != ip,
            decreases n - i,
        {
            let (k, workload) = self.entries[i];
            if k == ip {
                proof {
                    assert(resolver_contains(self@, ip));
                    let w = resolver_index_of(self@, ip);
                    assert(0 <= w < self@.len() && self@[w].0 == ip);
                    assert(w == i as int);
                }
                return Some(workload);
            }
            i += 1;
        }
        proof {
            assert(!resolver_contains(self@, ip));
        }
        None
    }
}

impl Clone for Resolver {
    /// A clone holds the same entries.
    fn clone(&self) -> (r: Self)
        ensures
            r@ == self@,
    {
        let mut entries: Vec<(u32, u64)> = Vec::new();
        let n = self.entries.len();
        let mut i: usize = 0;
        while i < n
            invariant
                n == self@.len(),
                i <= n,
                entries@ =~= self@.take(i as int),
            decreases n - i,
        {
            entries.push(self.entries[i]);
            proof {
                assert(entries@ =~= self@.take(i as int + 1));
            }
            i += 1;
        }
        proof {
            assert(entries@ =~= self@);
        }
        Resolver { entries }
    }
}

/// After replacing only the entry at `i`, which was and stays keyed by
/// `ip`, in a unique-keyed sequence, lookups for all other addresses are
/// unchanged.
proof fn lemma_resolve_after_point_change(s0: Seq<(u32, u64)>, s1: Seq<(u32, u64)>, i: int, ip: u32)
    requires
        s0.len() == s1.len(),
        0 <= i < s1.len(),
        s0[i].0 == ip,
        s1[i].0 == ip,
        resolver_keys_unique(s1),
        forall|j: int| 0 <= j < s0.len() && j != i ==> s0[j] == s1[j],
    ensures
        resolve_spec(s1, ip) == Some(s1[i].1),
        forall|ip2: u32| ip2 != ip ==> #[trigger] resolve_spec(s1, ip2) == resolve_spec(s0, ip2),
{
    assert(resolver_contains(s1, ip));
    let w = resolver_index_of(s1, ip);
    assert(0 <= w < s1.len() && s1[w].0 == ip);
    assert(w == i);
    assert forall|ip2: u32|
        ip2 != ip implies #[trigger] resolve_spec(s1, ip2) == resolve_spec(s0, ip2) by {
        if resolver_contains(s0, ip2) {
            let w0 = resolver_index_of(s0, ip2);
            assert(0 <= w0 < s0.len() && s0[w0].0 == ip2);
            assert(w0 != i);
            assert(s1[w0].0 == ip2);
            assert(resolver_contains(s1, ip2));
            let w1 = resolver_index_of(s1, ip2);
            assert(0 <= w1 < s1.len() && s1[w1].0 == ip2);
            assert(w1 == w0);
            assert(s0[w0] == s1[w1]);
        } else {
            if resolver_contains(s1, ip2) {
                let w1 = resolver_index_of(s1, ip2);
                assert(0 <= w1 < s1.len() && s1[w1].0 == ip2);
                assert(w1 != i);
                assert(s0[w1].0 == ip2);
            }
        }
    }
}

/// Appending an entry under a fresh address leaves every other address's
/// lookup unchanged.
proof fn lemma_resolve_after_push(s0: Seq<(u32, u64)>, ip: u32, workload: u64)
    requires
        resolver_keys_unique(s0),
        !resolver_contains(s0, ip),
    ensures
        resolver_keys_unique(s0.push((ip, workload))),
        resolve_spec(s0.push((ip, workload)), ip) == Some(workload),
        forall|ip2: u32|
            ip2 != ip ==> #[trigger] resolve_spec(s0.push((ip, workload)), ip2)
                == resolve_spec(s0, ip2),
{
    let s1 = s0.push((ip, workload));
    assert(s1[s0.len() as int] == (ip, workload));
    assert(forall|j: int| 0 <= j < s0.len() ==> s1[j] == s0[j]);
    assert(resolver_keys_unique(s1));
    assert(resolver_contains(s1, ip));
    let w = resolver_index_of(s1, ip);
    assert(0 <= w < s1.len() && s1[w].0 == ip);
    assert(w == s0.len() as int);
    assert forall|ip2: u32|
        ip2 != ip implies #[trigger] resolve_spec(s1, ip2) == resolve_spec(s0, ip2) by {
        if resolver_contains(s0, ip2) {
            let w0 = resolver_index_of(s0, ip2);
            assert(0 <= w0 < s0.len() && s0[w0].0 == ip2);
            assert(s1[w0].0 == ip2);
            assert(resolver_contains(s1, ip2));
            let w1 = resolver_index_of(s1, ip2);
            assert(0 <= w1 < s1.len() && s1[w1].0 == ip2);
            assert(w1 == w0);
        } else {
            if resolver_contains(s1, ip2) {
                let w1 = resolver_index_of(s1, ip2);
                assert(0 <= w1 < s1.len() && s1[w1].0 == ip2);
                assert(w1 != s0.len());
                assert(s0[w1].0 == ip2);
            }
        }
    }
}

} // verus!
