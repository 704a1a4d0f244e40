//! The name-keyed program registries and their manager.
//!
//! A registry is a `name -> program instance` store: get, insert, remove
//! and list, where insert replaces any existing entry under the same name
//! (last write wins — duplicate registration is a silent overwrite, not
//! an error). The runtime holds one registry of built-in programs, with
//! the aggregation engine registered at construction, and one for wasm
//! programs.

use vstd::prelude::*;

use crate::service_map::ServiceMap;

verus! {

/// A registered program instance: the closed set of program kinds the
/// runtime can hold (today only the aggregation engine).
pub enum ProgramInstance {
    ServiceMap(ServiceMap),
}

impl ProgramInstance {
    /// Whether two instances agree on every observable view.
    pub open spec fn views_eq(a: &ProgramInstance, b: &ProgramInstance) -> bool {
        match (a, b) {
            (ProgramInstance::ServiceMap(x), ProgramInstance::ServiceMap(y)) => ServiceMap::views_eq(
                x,
                y,
            ),
        }
    }
}

impl Clone for ProgramInstance {
    /// A clone agrees with the original on every observable view.
    fn clone(&self) -> (r: Self)
        ensures
            ProgramInstance::views_eq(&r, self),
    {
        match self {
            ProgramInstance::ServiceMap(x) => ProgramInstance::ServiceMap(x.clone()),
        }
    }
}

/// Whether no two entries share a name.
pub open spec fn reg_keys_unique(s: Seq<(String, ProgramInstance)>) -> bool {
    forall|i: int, j: int| 0 <= i < j < s.len() ==> s[i].0@ != s[j].0@
}

/// Whether some entry is keyed by `name`.
pub open spec fn reg_contains(s: Seq<(String, ProgramInstance)>, name: Seq<char>) -> bool {
    exists|i: int| 0 <= i < s.len() && s[i].0@ == name
}

/// The position of the entry keyed by `name` (meaningful when one
/// exists).
pub open spec fn reg_index_of(s: Seq<(String, ProgramInstance)>, name: Seq<char>) -> int {
    choose|i: int| 0 <= i < s.len() && s[i].0@ == name
}

/// Whether position `j` of `s1` holds an entry carried over from `s0`:
/// nothing there was invented or mutated.
pub open spec fn reg_entry_from(
    s0: Seq<(String, ProgramInstance)>,
    s1: Seq<(String, ProgramInstance)>,
    j: int,
) -> bool {
    exists|j0: int| 0 <= j0 < s0.len() && s0[j0] == s1[j]
}

/// Every entry of a sequence is carried over from itself.
proof fn lemma_entries_self_preserved(s: Seq<(String, ProgramInstance)>)
    ensures
        forall|j: int| 0 <= j < s.len() ==> #[trigger] reg_entry_from(s, s, j),
{
    assert forall|j: int| 0 <= j < s.len() implies #[trigger] reg_entry_from(s, s, j) by {
        assert(0 <= j < s.len() && s[j] == s[j]);
    }
}

/// The entries of a name-keyed program store.
struct RegEntries {
    entries: Vec<(String, ProgramInstance)>,
}

impl RegEntries {
    spec fn view(&self) -> Seq<(String, ProgramInstance)> {
        self.entries@
    }

    spec fn wf(&self) -> bool {
        reg_keys_unique(self@)
    }

    fn new() -> (r: RegEntries)
        ensures
            r.wf(),
            r@ == Seq::<(String, ProgramInstance)>::empty(),
    {
        let r = RegEntries { entries: Vec::new() };
        proof {
            assert(r@ =~= Seq::<(String, ProgramInstance)>::empty());
        }
        r
    }

    /// A clone of the stored instance under `name`, if any.
    fn get(&self, name: String) -> (r: Option<ProgramInstance>)
        requires
            self.wf(),
        ensures
            !reg_contains(self@, name@) ==> r is None,
            reg_contains(self@, name@) ==> r is Some && ProgramInstance::views_eq(
                &(r->Some_0),
                &self@[reg_index_of(self@, name@)].1,
            ),
    {
        let n = self.entries.len();
        let mut i: usize = 0;
        while i < n
            invariant
                self.wf(),
                n == self@.len(),
                i <= n,
                forall|j: int| 0 <= j < i ==> self@[j].0@ != name@,
            decreases n - i,
        {
            if self.entries[i].0 == name {
                let cloned = self.entries[i].1.clone();
                proof {
                    assert(reg_contains(self@, name@));
                    let w = reg_index_of(self@, name@);
                    assert(0 <= w < self@.len() && self@[w].0@ == name@);
                    assert(w == i as int);
                }
                return Some(cloned);
            }
            i += 1;
        }
        proof {
            assert(!reg_contains(self@, name@));
        }
        None
    }

    /// Store `program` under `name`, replacing — and returning — any
    /// instance previously registered under that name. Every other
    /// name's entry is untouched.
    fn insert(&mut self, name: String, program: ProgramInstance) -> (r: Option<ProgramInstance>)
        requires
            old(self).wf(),
        ensures
            final(self).wf(),
            reg_contains(final(self)@, name@),
            final(self)@[reg_index_of(final(self)@, name@)].1 == program,
            forall|n2: Seq<char>|
                n2 != name@ ==> (#[trigger] reg_contains(final(self)@, n2) <==> reg_contains(
                    old(self)@,
                    n2,
                )),
            forall|j: int|
                0 <= j < final(self)@.len() && final(self)@[j].0@ != name@ ==> #[trigger] reg_entry_from(old(self)@, final(self)@, j),
            !reg_contains(old(self)@, name@) ==> r is None && final(self)@.len() == old(self)@.len()
                + 1,
            reg_contains(old(self)@, name@) ==> r is Some && (r->Some_0) == old(self)@[reg_index_of(
                old(self)@,
                name@,
            )].1 && final(self)@.len() == old(self)@.len(),
    {
        let ghost s0 = self@;
        let n = self.entries.len();
        let mut i: usize = 0;
        while i < n
            invariant
                self@ == s0,
                s0 == old(self)@,
                reg_keys_unique(s0),
                n == s0.len(),
                i <= n,
                forall|j: int| 0 <= j < i ==> s0[j].0@ != name@,
            decreases n - i,
        {
            if self.entries[i].0 == name {
                let previous = self.entries.remove(i);
                self.entries.push((name, program));
                proof {
                    let s1 = self@;
                    assert(s1 =~= s0.remove(i as int).push((name, program)));
                    assert(reg_contains(s0, name@));
                    let w0 = reg_index_of(s0, name@);
                    assert(0 <= w0 < s0.len() && s0[w0].0@ == name@);
                    assert(w0 == i as int);
                    assert(forall|j: int| 0 <= j < i ==> s1[j] == s0[j]);
                    assert(forall|j: int|
                        i <= j < s1.len() - 1 ==> s1[j] == s0[j + 1]);
                    assert(s1[s1.len() - 1] == (name, program));
                    assert(reg_keys_unique(s1));
                    assert(s1[s1.len() - 1].0@ == name@);
                    assert(reg_contains(s1, name@));
                    let w1 = reg_index_of(s1, name@);
                    assert(0 <= w1 < s1.len() && s1[w1].0@ == name@);
                    assert(w1 == s1.len() - 1);
                    assert forall|n2: Seq<char>|
                        n2 != name@ implies (#[trigger] reg_contains(s1, n2) <==> reg_contains(
                        s0,
                        n2,
                    )) by {
                        if reg_contains(s0, n2) {
                            let w = reg_index_of(s0, n2);
                            assert(0 <= w < s0.len() && s0[w].0@ == n2);
                            assert(w != i);
                            if w < i {
                                assert(s1[w].0@ == n2);
                            } else {
                                assert(s1[w - 1].0@ == n2);
                            }
                            assert(reg_contains(s1, n2));
                        }
                        if reg_contains(s1, n2) {
                            let w = reg_index_of(s1, n2);
                            assert(0 <= w < s1.len() && s1[w].0@ == n2);
                            assert(w != s1.len() - 1);
                            if w < i {
                                assert(s0[w].0@ == n2);
                            } else {
                                assert(s0[w + 1].0@ == n2);
                            }
                            assert(reg_contains(s0, n2));
                        }
                    }
                    assert forall|j: int|
                        0 <= j < s1.len() && s1[j].0@ != name@ implies #[trigger] reg_entry_from(
                        s0,
                        s1,
                        j,
                    ) by {
                        assert(j != s1.len() - 1);
                        if j < i {
                            assert(s0[j] == s1[j]);
                        } else {
                            assert(s0[j + 1] == s1[j]);
                        }
                    }
                }
                return Some(previous.1);
            }
            i += 1;
        }
        proof {
            assert(!reg_contains(s0, name@));
        }
        self.entries.push((name, program));
        proof {
            let s1 = self@;
            assert(forall|j: int| 0 <= j < s0.len() ==> s1[j] == s0[j]);
            assert(s1[s0.len() as int] == (name, program));
            assert(reg_keys_unique(s1));
            assert(reg_contains(s1, name@));
            let w1 = reg_index_of(s1, name@);
            assert(0 <= w1 < s1.len() && s1[w1].0@ == name@);
            assert(w1 == s0.len() as int);
            assert forall|n2: Seq<char>|
                n2 != name@ implies (#[trigger] reg_contains(s1, n2) <==> reg_contains(s0, n2)) by {
                if reg_contains(s0, n2) {
                    let w = reg_index_of(s0, n2);
                    assert(s1[w].0@ == n2);
                    assert(reg_contains(s1, n2));
                }
                if reg_contains(s1, n2) {
                    let w = reg_index_of(s1, n2);
                    assert(0 <= w < s1.len() && s1[w].0@ == n2);
                    assert(w != s0.len());
                    assert(s0[w].0@ == n2);
                    assert(reg_contains(s0, n2));
                }
            }
        }
        None
    }

    /// Remove — and return — the instance registered under `name`, if
    /// any. Every other name's entry is untouched.
    fn remove(&mut self, name: String) -> (r: Option<ProgramInstance>)
        requires
            old(self).wf(),
        ensures
            final(self).wf(),
            !reg_contains(final(self)@, name@),
            forall|n2: Seq<char>|
                n2 != name@ ==> (#[trigger] reg_contains(final(self)@, n2) <==> reg_contains(
                    old(self)@,
                    n2,
                )),
            forall|j: int|
                0 <= j < final(self)@.len() ==> #[trigger] reg_entry_from(old(self)@, final(self)@, j),
            !reg_contains(old(self)@, name@) ==> r is None && final(self)@ == old(self)@,
            reg_contains(old(self)@, name@) ==> r is Some && (r->Some_0) == old(self)@[reg_index_of(
                old(self)@,
                name@,
            )].1 && final(self)@.len() == old(self)@.len() - 1,
    {
        let ghost s0 = self@;
        let n = self.entries.len();
        let mut i: usize = 0;
        while i < n
            invariant
                self@ == s0,
                s0 == old(self)@,
                reg_keys_unique(s0),
                n == s0.len(),
                i <= n,
                forall|j: int| 0 <= j < i ==> s0[j].0@ != name@,
            decreases n - i,
        {
            if self.entries[i].0 == name {
                let previous = self.entries.remove(i);
                proof {
                    let s1 = self@;
                    assert(s1 == s0.remove(i as int));
                    assert(reg_contains(s0, name@));
                    let w0 = reg_index_of(s0, name@);
                    assert(0 <= w0 < s0.len() && s0[w0].0@ == name@);
                    assert(w0 == i as int);
                    assert(forall|j: int| 0 <= j < i ==> s1[j] == s0[j]);
                    assert(forall|j: int| i <= j < s1.len() ==> s1[j] == s0[j + 1]);
                    assert(reg_keys_unique(s1));
                    assert(!reg_contains(s1, name@)) by {
                        if reg_contains(s1, name@) {
                            let w = reg_index_of(s1, name@);
                            assert(0 <= w < s1.len() && s1[w].0@ == name@);
                            if w < i {
                                assert(s0[w].0@ == name@);
                            } else {
                                assert(s0[w + 1].0@ == name@);
                            }
                        }
                    }
                    assert forall|n2: Seq<char>|
                        n2 != name@ implies (#[trigger] reg_contains(s1, n2) <==> reg_contains(
                        s0,
                        n2,
                    )) by {
                        if reg_contains(s0, n2) {
                            let w = reg_index_of(s0, n2);
                            assert(0 <= w < s0.len() && s0[w].0@ == n2);
                            assert(w != i);
                            if w < i {
                                assert(s1[w].0@ == n2);
                            } else {
                                assert(s1[w - 1].0@ == n2);
                            }
                            assert(reg_contains(s1, n2));
                        }
                        if reg_contains(s1, n2) {
                            let w = reg_index_of(s1, n2);
                            assert(0 <= w < s1.len() && s1[w].0@ == n2);
                            if w < i {
                                assert(s0[w].0@ == n2);
                            } else {
                                assert(s0[w + 1].0@ == n2);
                            }
                            assert(reg_contains(s0, n2));
                        }
                    }
                    assert forall|j: int|
                        0 <= j < s1.len() implies #[trigger] reg_entry_from(s0, s1, j) by {
                        if j < i {
                            assert(s0[j] == s1[j]);
                        } else {
                            assert(s0[j + 1] == s1[j]);
                        }
                    }
                }
                return Some(previous.1);
            }
            i += 1;
        }
        proof {
            assert(!reg_contains(s0, name@));
            lemma_entries_self_preserved(s0);
        }
        None
    }

    /// Clones of every registered instance, in store order.
    fn list(&self) -> (r: Vec<ProgramInstance>)
        requires
            self.wf(),
        ensures
            r@.len() == self@.len(),
            forall|i: int|
                0 <= i < r@.len() ==> ProgramInstance::views_eq(&r@[i], &self@[i].1),
    {
        let n = self.entries.len();
        let mut out: Vec<ProgramInstance> = Vec::new();
        let mut i: usize = 0;
        while i < n
            invariant
                self.wf(),
                n == self@.len(),
                i <= n,
                out@.len() == i,
                forall|j: int|
                    0 <= j < i ==> ProgramInstance::views_eq(&out@[j], &self@[j].1),
            decreases n - i,
        {
            out.push(self.entries[i].1.clone());
            i += 1;
        }
        out
    }
}

/// The registry of built-in programs.
pub struct BuiltinRegistry {
    inner: RegEntries,
}

impl BuiltinRegistry {
    /// The sequence of name-keyed entries this registry holds.
    pub closed spec fn view(&self) -> Seq<(String, ProgramInstance)> {
        self.inner@
    }

    /// Well-formed: names are unique.
    pub closed spec fn wf(&self) -> bool {
        self.inner.wf()
    }

    /// An empty registry.
    pub fn new() -> (r: BuiltinRegistry)
        ensures
            r.wf(),
            r@ == Seq::<(String, ProgramInstance)>::empty(),
    {
        BuiltinRegistry { inner: RegEntries::new() }
    }

    /// Register the built-in programs: one aggregation engine under its
    /// fixed name.
    pub fn register_builtin_progs(&mut self)
        requires
            old(self).wf(),
        ensures
            final(self).wf(),
            reg_contains(final(self)@, "service_map"@),
            forall|n2: Seq<char>|
                n2 != "service_map"@ ==> (#[trigger] reg_contains(final(self)@, n2)
                    <==> reg_contains(old(self)@, n2)),
    {
        let _ = self.inner.insert(
            "service_map".to_owned(),
            ProgramInstance::ServiceMap(ServiceMap::new()),
        );
    }

    /// A clone of the instance registered under `name`, if any.
    pub fn get(&self, name: String) -> (r: Option<ProgramInstance>)
        requires
            self.wf(),
        ensures
            !reg_contains(self@, name@) ==> r is None,
            reg_contains(self@, name@) ==> r is Some && ProgramInstance::views_eq(
                &(r->Some_0),
                &self@[reg_index_of(self@, name@)].1,
            ),
    {
        self.inner.get(name)
    }

    /// Store `program` under `name`, replacing — and returning — any
    /// instance previously registered under that name.
    pub fn insert(&mut self, name: String, program: ProgramInstance) -> (r: Option<ProgramInstance>)
        requires
            old(self).wf(),
        ensures
            final(self).wf(),
            reg_contains(final(self)@, name@),
            final(self)@[reg_index_of(final(self)@, name@)].1 == program,
            forall|n2: Seq<char>|
                n2 != name@ ==> (#[trigger] reg_contains(final(self)@, n2) <==> reg_contains(
                    old(self)@,
                    n2,
                )),
            forall|j: int|
                0 <= j < final(self)@.len() && final(self)@[j].0@ != name@ ==> #[trigger] reg_entry_from(old(self)@, final(self)@, j),
            !reg_contains(old(self)@, name@) ==> r is None && final(self)@.len() == old(self)@.len()
                + 1,
            reg_contains(old(self)@, name@) ==> r is Some && final(self)@.len() == old(self)@.len(),
    {
        self.inner.insert(name, program)
    }

    /// Remove — and return — the instance registered under `name`, if
    /// any.
    pub fn remove(&mut self, name: String) -> (r: Option<ProgramInstance>)
        requires
            old(self).wf(),
        ensures
            final(self).wf(),
            !reg_contains(final(self)@, name@),
            forall|n2: Seq<char>|
                n2 != name@ ==> (#[trigger] reg_contains(final(self)@, n2) <==> reg_contains(
                    old(self)@,
                    n2,
                )),
            forall|j: int|
                0 <= j < final(self)@.len() ==> #[trigger] reg_entry_from(old(self)@, final(self)@, j),
            !reg_contains(old(self)@, name@) ==> r is None && final(self)@ == old(self)@,
            reg_contains(old(self)@, name@) ==> r is Some && final(self)@.len() == old(self)@.len()
                - 1,
    {
        self.inner.remove(name)
    }

    /// Clones of every registered instance, in store order.
    pub fn list(&self) -> (r: Vec<ProgramInstance>)
        requires
            self.wf(),
        ensures
            r@.len() == self@.len(),
            forall|i: int|
                0 <= i < r@.len() ==> ProgramInstance::views_eq(&r@[i], &self@[i].1),
    {
        self.inner.list()
    }
}

/// The registry of wasm programs: the same name-keyed store, empty at
/// construction.
pub struct WasmRegistry {
    inner: RegEntries,
}

impl WasmRegistry {
    /// The sequence of name-keyed entries this registry holds.
    pub closed spec fn view(&self) -> Seq<(String, ProgramInstance)> {
        self.inner@
    }

    /// Well-formed: names are unique.
    pub closed spec fn wf(&self) -> bool {
        self.inner.wf()
    }

    /// An empty registry.
    pub fn new() -> (r: WasmRegistry)
        ensures
            r.wf(),
            r@ == Seq::<(String, ProgramInstance)>::empty(),
    {
        WasmRegistry { inner: RegEntries::new() }
    }

    /// A clone of the instance registered under `name`, if any.
    pub fn get(&self, name: String) -> (r: Option<ProgramInstance>)
        requires
            self.wf(),
        ensures
            !reg_contains(self@, name@) ==> r is None,
            reg_contains(self@, name@) ==> r is Some && ProgramInstance::views_eq(
                &(r->Some_0),
                &self@[reg_index_of(self@, name@)].1,
            ),
    {
        self.inner.get(name)
    }

    /// Store `program` under `name`, replacing — and returning — any
    /// instance previously registered under that name.
    pub fn insert(&mut self, name: String, program: ProgramInstance) -> (r: Option<ProgramInstance>)
        requires
            old(self).wf(),
        ensures
            final(self).wf(),
            reg_contains(final(self)@, name@),
            final(self)@[reg_index_of(final(self)@, name@)].1 == program,
            forall|n2: Seq<char>|
                n2 != name@ ==> (#[trigger] reg_contains(final(self)@, n2) <==> reg_contains(
                    old(self)@,
                    n2,
                )),
            forall|j: int|
                0 <= j < final(self)@.len() && final(self)@[j].0@ != name@ ==> #[trigger] reg_entry_from(old(self)@, final(self)@, j),
            !reg_contains(old(self)@, name@) ==> r is None && final(self)@.len() == old(self)@.len()
                + 1,
            reg_contains(old(self)@, name@) ==> r is Some && final(self)@.len() == old(self)@.len(),
    {
        self.inner.insert(name, program)
    }

    /// Remove — and return — the instance registered under `name`, if
    /// any.
    pub fn remove(&mut self, name: String) -> (r: Option<ProgramInstance>)
        requires
            old(self).wf(),
        ensures
            final(self).wf(),
            !reg_contains(final(self)@, name@),
            forall|n2: Seq<char>|
                n2 != name@ ==> (#[trigger] reg_contains(final(self)@, n2) <==> reg_contains(
                    old(self)@,
                    n2,
                )),
            forall|j: int|
                0 <= j < final(self)@.len() ==> #[trigger] reg_entry_from(old(self)@, final(self)@, j),
            !reg_contains(old(self)@, name@) ==> r is None && final(self)@ == old(self)@,
            reg_contains(old(self)@, name@) ==> r is Some && final(self)@.len() == old(self)@.len()
                - 1,
    {
        self.inner.remove(name)
    }

    /// Clones of every registered instance, in store order.
    pub fn list(&self) -> (r: Vec<ProgramInstance>)
        requires
            self.wf(),
        ensures
            r@.len() == self@.len(),
            forall|i: int|
                0 <= i < r@.len() ==> ProgramInstance::views_eq(&r@[i], &self@[i].1),
    {
        self.inner.list()
    }
}

/// The runtime's registries: built-in programs (with the aggregation
/// engine registered once at construction) and wasm programs.
pub struct RegistryManager {
    pub builtin: BuiltinRegistry,
    pub wasm: WasmRegistry,
}

impl RegistryManager {
    /// Construct both registries and register the built-in programs.
    pub fn new() -> (r: RegistryManager)
        ensures
            r.builtin.wf(),
            r.wasm.wf(),
            reg_contains(r.builtin@, "service_map"@),
            r.wasm@ == Seq::<(String, ProgramInstance)>::empty(),
    {
        let mut builtin = BuiltinRegistry::new();
        builtin.register_builtin_progs();
        let wasm = WasmRegistry::new();
        RegistryManager { builtin, wasm }
    }
}

} // verus!
