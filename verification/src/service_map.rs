//! The stateful aggregation engine.
//!
//! A `ServiceMap` owns a handle to the raw connection table written by the
//! kernel probes, polls it, resolves raw endpoints into workload
//! identities, and maintains a cumulative `Connection -> byte count` view:
//! the sum of every currently-active raw flow resolving to a connection
//! plus that connection's archived total. Raw entries observed inactive
//! are evicted: removed from the raw table and folded into the archive
//! exactly once. Self-connections, loopback destinations, unknown roles
//! and unresolvable endpoints contribute nothing, and are never archived.

use vstd::prelude::*;

use crate::flow::{
    connection_for_spec, is_loopback_address, is_loopback_spec, Connection,
    CONNECTION_ROLE_CLIENT, CONNECTION_ROLE_SERVER,
};
use crate::resolver::{resolve_spec, Resolver};
use crate::sums::{lemma_sum_by_le, lemma_sum_by_take_step, sum_by};
use crate::table::{table_keys_unique, RawTable};
use crate::flow::{RawFlowKey, RawFlowStats};
use crate::totals::{
    totals_contains, totals_keys_unique, totals_sum, totals_value_sum, ConnTotals,
};
use crate::types::{
    program_state_code, program_state_code_spec, program_type_code, AgentError, ParseError,
    ProgramInfo, ProgramState, ProgramType, ShutdownSignal,
};

verus! {

/// The logical connection a raw entry is aggregated under, given the
/// resolver contents `r` — or `None` when the entry is skipped: a
/// self-connection, a loopback destination, an unknown role, or an
/// endpoint the resolver cannot identify.
pub open spec fn conn_of(r: Seq<(u32, u64)>, k: RawFlowKey) -> Option<Connection> {
    if k.src_addr == k.dest_addr || is_loopback_spec(k.dest_addr) {
        None
    } else if k.role != CONNECTION_ROLE_CLIENT && k.role != CONNECTION_ROLE_SERVER {
        None
    } else {
        match (resolve_spec(r, k.src_addr), resolve_spec(r, k.dest_addr)) {
            (Some(src_w), Some(dest_w)) => Some(connection_for_spec(k, src_w, dest_w)),
            _ => None,
        }
    }
}

/// Whether a raw entry is still active (and so belongs to the live part
/// of the cumulative view).
pub open spec fn active_pred() -> spec_fn((RawFlowKey, RawFlowStats)) -> bool {
    |e: (RawFlowKey, RawFlowStats)| e.1.is_active
}

/// Weight of a raw entry towards connection `c`'s live total: its byte
/// count if it is active and aggregates under `c`, zero otherwise.
pub open spec fn active_weight(r: Seq<(u32, u64)>, c: Connection) -> spec_fn(
    (RawFlowKey, RawFlowStats),
) -> int {
    |e: (RawFlowKey, RawFlowStats)| if e.1.is_active && conn_of(r, e.0) == Some(c) {
        e.1.bytes_sent as int
    } else {
        0
    }
}

/// Weight of a raw entry towards connection `c`'s evicted total: its byte
/// count if it is inactive and aggregates under `c`, zero otherwise.
pub open spec fn inactive_weight(r: Seq<(u32, u64)>, c: Connection) -> spec_fn(
    (RawFlowKey, RawFlowStats),
) -> int {
    |e: (RawFlowKey, RawFlowStats)| if !e.1.is_active && conn_of(r, e.0) == Some(c) {
        e.1.bytes_sent as int
    } else {
        0
    }
}

/// Weight of a raw entry towards the table's grand byte total.
pub open spec fn bytes_weight() -> spec_fn((RawFlowKey, RawFlowStats)) -> int {
    |e: (RawFlowKey, RawFlowStats)| e.1.bytes_sent as int
}

/// The live total for `c`: bytes of every active entry aggregating
/// under `c`.
pub open spec fn active_total(
    t: Seq<(RawFlowKey, RawFlowStats)>,
    r: Seq<(u32, u64)>,
    c: Connection,
) -> int {
    sum_by(t, active_weight(r, c))
}

/// The evicted total for `c`: bytes of every inactive entry aggregating
/// under `c`.
pub open spec fn inactive_total(
    t: Seq<(RawFlowKey, RawFlowStats)>,
    r: Seq<(u32, u64)>,
    c: Connection,
) -> int {
    sum_by(t, inactive_weight(r, c))
}

/// The grand byte total of a raw table.
pub open spec fn bytes_total(t: Seq<(RawFlowKey, RawFlowStats)>) -> int {
    sum_by(t, bytes_weight())
}

/// Whether some active entry of `t` aggregates under `c`.
pub open spec fn active_exists(
    t: Seq<(RawFlowKey, RawFlowStats)>,
    r: Seq<(u32, u64)>,
    c: Connection,
) -> bool {
    exists|i: int| 0 <= i < t.len() && t[i].1.is_active && conn_of(r, t[i].0) == Some(c)
}

/// Whether some inactive entry of `t` aggregates under `c`.
pub open spec fn inactive_exists(
    t: Seq<(RawFlowKey, RawFlowStats)>,
    r: Seq<(u32, u64)>,
    c: Connection,
) -> bool {
    exists|i: int| 0 <= i < t.len() && !t[i].1.is_active && conn_of(r, t[i].0) == Some(c)
}

/// The stateful aggregation engine: one instance per agent.
pub struct ServiceMap {
    name: String,
    program_type: ProgramType,
    program_state: ProgramState,
    metadata: Vec<(String, String)>,
    current_conns_map: Option<RawTable>,
    past_conns_map: ConnTotals,
    cache_mgr: Option<Resolver>,
}

impl ServiceMap {
    /// The engine's name.
    pub closed spec fn name_view(&self) -> Seq<char> {
        self.name@
    }

    /// The engine's lifecycle state.
    pub closed spec fn state_view(&self) -> ProgramState {
        self.program_state
    }

    /// The engine's program kind.
    pub closed spec fn type_view(&self) -> ProgramType {
        self.program_type
    }

    /// The engine's metadata, as key/value character sequences.
    pub closed spec fn metadata_view(&self) -> Seq<(Seq<char>, Seq<char>)> {
        self.metadata@.map_values(|p: (String, String)| (p.0@, p.1@))
    }

    /// The raw table contents, when the engine holds a table handle.
    pub closed spec fn table_view(&self) -> Option<Seq<(RawFlowKey, RawFlowStats)>> {
        match self.current_conns_map {
            Some(t) => Some(t@),
            None => None,
        }
    }

    /// The archive: final totals of flows already evicted from the raw
    /// table.
    pub closed spec fn archive_view(&self) -> Seq<(Connection, u64)> {
        self.past_conns_map@
    }

    /// The resolver contents the engine aggregates under; without a bound
    /// resolver every endpoint is unresolvable.
    pub closed spec fn resolver_view(&self) -> Seq<(u32, u64)> {
        match self.cache_mgr {
            Some(r) => r@,
            None => Seq::empty(),
        }
    }

    /// Well-formed: the fixed name is in place and every held collection
    /// is keyed uniquely (the archive further keeps its grand total within
    /// `u64` range).
    pub closed spec fn wf(&self) -> bool {
        &&& self.name@ == "service_map"@
        &&& match self.current_conns_map {
            Some(t) => t.wf(),
            None => true,
        }
        &&& self.past_conns_map.wf()
        &&& match self.cache_mgr {
            Some(r) => r.wf(),
            None => true,
        }
    }

    /// Whether one poll cycle's accumulation stays within `u64` range:
    /// the raw table's grand byte total plus the archive's grand total.
    pub open spec fn poll_fits(&self) -> bool {
        match self.table_view() {
            Some(t) => bytes_total(t) + totals_value_sum(self.archive_view()) <= u64::MAX,
            None => true,
        }
    }

    /// A fresh engine: uninitialized, with no table handle, no resolver,
    /// an empty archive and empty metadata.
    pub fn new() -> (r: ServiceMap)
        ensures
            r.wf(),
            r.state_view() == ProgramState::Uninitialized,
            r.type_view() == ProgramType::Builtin,
            r.name_view() == "service_map"@,
            r.metadata_view() == Seq::<(Seq<char>, Seq<char>)>::empty(),
            r.table_view() is None,
            r.archive_view() == Seq::<(Connection, u64)>::empty(),
            r.resolver_view() == Seq::<(u32, u64)>::empty(),
    {
        let r = ServiceMap {
            name: "service_map".to_owned(),
            program_type: ProgramType::Builtin,
            program_state: ProgramState::Uninitialized,
            metadata: Vec::new(),
            current_conns_map: None,
            past_conns_map: ConnTotals::new(),
            cache_mgr: None,
        };
        proof {
            assert(r.metadata_view() =~= Seq::<(Seq<char>, Seq<char>)>::empty());
        }
        r
    }

    /// The workload identity an address resolves to, through the bound
    /// resolver; `None` without one.
    pub fn resolve_ip(&self, ip: u32) -> (r: Option<u64>)
        requires
            self.wf(),
        ensures
            r == resolve_spec(self.resolver_view(), ip),
    {
        match &self.cache_mgr {
            Some(cache) => cache.lookup(ip),
            None => {
                proof {
                    assert(!crate::resolver::resolver_contains(Seq::<(u32, u64)>::empty(), ip));
                }
                None
            },
        }
    }

    /// Build the logical connection for a raw key: resolve both
    /// endpoints (failing on whichever is unknown, source first), then
    /// select the client, server and server port by the key's role.
    pub fn build_connection(&self, key: RawFlowKey) -> (r: Result<Connection, AgentError>)
        requires
            self.wf(),
        ensures
            ({
                let rv = self.resolver_view();
                match (resolve_spec(rv, key.src_addr), resolve_spec(rv, key.dest_addr)) {
                    (None, _) => r == Err::<Connection, AgentError>(AgentError::UnknownIp),
                    (Some(_), None) => r == Err::<Connection, AgentError>(AgentError::UnknownIp),
                    (Some(src_w), Some(dest_w)) => {
                        if key.role == CONNECTION_ROLE_CLIENT || key.role == CONNECTION_ROLE_SERVER {
                            r == Ok::<Connection, AgentError>(
                                connection_for_spec(key, src_w, dest_w),
                            )
                        } else {
                            r == Err::<Connection, AgentError>(AgentError::UnknownRole)
                        }
                    },
                }
            }),
    {
        let src_w = match self.resolve_ip(key.src_addr) {
            Some(w) => w,
            None => {
                return Err(AgentError::UnknownIp);
            },
        };
        let dest_w = match self.resolve_ip(key.dest_addr) {
            Some(w) => w,
            None => {
                return Err(AgentError::UnknownIp);
            },
        };
        if key.role == CONNECTION_ROLE_CLIENT {
            Ok(Connection {
                client: src_w,
                server: dest_w,
                role: key.role,
                server_port: key.dest_port,
            })
        } else if key.role == CONNECTION_ROLE_SERVER {
            Ok(Connection {
                client: dest_w,
                server: src_w,
                role: key.role,
                server_port: key.src_port,
            })
        } else {
            Err(AgentError::UnknownRole)
        }
    }
}

/// Weight of a raw entry towards the bytes a poll cycle accumulates
/// live: its byte count if it is active and aggregates at all.
spec fn resolved_bytes_weight(r: Seq<(u32, u64)>) -> spec_fn((RawFlowKey, RawFlowStats)) -> int {
    |e: (RawFlowKey, RawFlowStats)| if e.1.is_active && conn_of(r, e.0) is Some {
        e.1.bytes_sent as int
    } else {
        0
    }
}

/// Weight of an evicted `(key, final bytes)` record towards connection
/// `c`'s archive gain.
spec fn ev_conn_weight(r: Seq<(u32, u64)>, c: Connection) -> spec_fn((RawFlowKey, u64)) -> int {
    |e: (RawFlowKey, u64)| if conn_of(r, e.0) == Some(c) {
        e.1 as int
    } else {
        0
    }
}

/// Weight of an evicted record towards the archive's grand-total gain:
/// its bytes if it aggregates at all.
spec fn ev_resolved_weight(r: Seq<(u32, u64)>) -> spec_fn((RawFlowKey, u64)) -> int {
    |e: (RawFlowKey, u64)| if conn_of(r, e.0) is Some {
        e.1 as int
    } else {
        0
    }
}

/// Weight of an evicted record: its bytes.
spec fn ev_bytes_weight() -> spec_fn((RawFlowKey, u64)) -> int {
    |e: (RawFlowKey, u64)| e.1 as int
}

/// Weight of a raw entry towards the bytes awaiting eviction: its byte
/// count if it is inactive.
spec fn inactive_bytes_weight() -> spec_fn((RawFlowKey, RawFlowStats)) -> int {
    |e: (RawFlowKey, RawFlowStats)| if !e.1.is_active {
        e.1.bytes_sent as int
    } else {
        0
    }
}

/// Whether some evicted `(key, final bytes)` record aggregates under `c`.
spec fn ev_mentions(ev: Seq<(RawFlowKey, u64)>, r: Seq<(u32, u64)>, c: Connection) -> bool {
    exists|j: int| 0 <= j < ev.len() && conn_of(r, ev[j].0) == Some(c)
}

/// One scanning step for the existence predicates: extending a prefix by
/// one entry adds exactly that entry's connection, on the matching
/// activity side.
proof fn lemma_exists_steps(t: Seq<(RawFlowKey, RawFlowStats)>, rv: Seq<(u32, u64)>, i: int)
    requires
        0 <= i < t.len(),
    ensures
        forall|c: Connection| #[trigger] active_exists(t.take(i + 1), rv, c) <==> (active_exists(
            t.take(i),
            rv,
            c,
        ) || (t[i].1.is_active && conn_of(rv, t[i].0) == Some(c))),
        forall|c: Connection| #[trigger] inactive_exists(t.take(i + 1), rv, c)
            <==> (inactive_exists(t.take(i), rv, c) || (!t[i].1.is_active && conn_of(rv, t[i].0)
            == Some(c))),
{
    let s1 = t.take(i + 1);
    let s0 = t.take(i);
    assert(forall|j: int| 0 <= j < s1.len() ==> s1[j] == t[j]);
    assert(forall|j: int| 0 <= j < s0.len() ==> s0[j] == t[j]);
    assert forall|c: Connection| #[trigger] active_exists(s1, rv, c) <==> (active_exists(s0, rv, c)
        || (t[i].1.is_active && conn_of(rv, t[i].0) == Some(c))) by {
        if active_exists(s1, rv, c) {
            let j = choose|j: int|
                0 <= j < s1.len() && s1[j].1.is_active && conn_of(rv, s1[j].0) == Some(c);
            if j < i {
                assert(s0[j] == t[j]);
                assert(active_exists(s0, rv, c));
            } else {
                assert(s1[j] == t[i]);
            }
        }
        if active_exists(s0, rv, c) {
            let j = choose|j: int|
                0 <= j < s0.len() && s0[j].1.is_active && conn_of(rv, s0[j].0) == Some(c);
            assert(s1[j] == s0[j]);
            assert(active_exists(s1, rv, c));
        }
        if t[i].1.is_active && conn_of(rv, t[i].0) == Some(c) {
            assert(s1[i] == t[i]);
            assert(active_exists(s1, rv, c));
        }
    }
    assert forall|c: Connection| #[trigger] inactive_exists(s1, rv, c) <==> (inactive_exists(
        s0,
        rv,
        c,
    ) || (!t[i].1.is_active && conn_of(rv, t[i].0) == Some(c))) by {
        if inactive_exists(s1, rv, c) {
            let j = choose|j: int|
                0 <= j < s1.len() && !s1[j].1.is_active && conn_of(rv, s1[j].0) == Some(c);
            if j < i {
                assert(s0[j] == t[j]);
                assert(inactive_exists(s0, rv, c));
            } else {
                assert(s1[j] == t[i]);
            }
        }
        if inactive_exists(s0, rv, c) {
            let j = choose|j: int|
                0 <= j < s0.len() && !s0[j].1.is_active && conn_of(rv, s0[j].0) == Some(c);
            assert(s1[j] == s0[j]);
            assert(inactive_exists(s1, rv, c));
        }
        if !t[i].1.is_active && conn_of(rv, t[i].0) == Some(c) {
            assert(s1[i] == t[i]);
            assert(inactive_exists(s1, rv, c));
        }
    }
}

/// Appending an evicted record adds exactly its connection to the set of
/// connections the eviction list mentions.
proof fn lemma_ev_mentions_push(ev: Seq<(RawFlowKey, u64)>, e: (RawFlowKey, u64), rv: Seq<(u32, u64)>)
    ensures
        forall|c: Connection| #[trigger] ev_mentions(ev.push(e), rv, c) <==> (ev_mentions(ev, rv, c)
            || conn_of(rv, e.0) == Some(c)),
{
    let s1 = ev.push(e);
    assert(forall|j: int| 0 <= j < ev.len() ==> s1[j] == ev[j]);
    assert(s1[ev.len() as int] == e);
    assert forall|c: Connection| #[trigger] ev_mentions(s1, rv, c) <==> (ev_mentions(ev, rv, c)
        || conn_of(rv, e.0) == Some(c)) by {
        if ev_mentions(s1, rv, c) {
            let j = choose|j: int| 0 <= j < s1.len() && conn_of(rv, s1[j].0) == Some(c);
            if j < ev.len() {
                assert(ev_mentions(ev, rv, c));
            } else {
                assert(s1[j] == e);
            }
        }
        if ev_mentions(ev, rv, c) {
            let j = choose|j: int| 0 <= j < ev.len() && conn_of(rv, ev[j].0) == Some(c);
            assert(s1[j] == ev[j]);
            assert(ev_mentions(s1, rv, c));
        }
        if conn_of(rv, e.0) == Some(c) {
            assert(ev_mentions(s1, rv, c));
        }
    }
}

/// One step through the eviction list: a longer prefix mentions exactly
/// one more record's connection.
proof fn lemma_ev_mentions_take_step(ev: Seq<(RawFlowKey, u64)>, rv: Seq<(u32, u64)>, k: int)
    requires
        0 <= k < ev.len(),
    ensures
        forall|c: Connection| #[trigger] ev_mentions(ev.take(k + 1), rv, c) <==> (ev_mentions(
            ev.take(k),
            rv,
            c,
        ) || conn_of(rv, ev[k].0) == Some(c)),
{
    assert(ev.take(k + 1) =~= ev.take(k).push(ev[k]));
    lemma_ev_mentions_push(ev.take(k), ev[k], rv);
}

/// One filtering step: extending a prefix by an entry extends its active
/// filtrate exactly when the entry is active.
proof fn lemma_filter_take_step(t: Seq<(RawFlowKey, RawFlowStats)>, i: int)
    requires
        0 <= i < t.len(),
    ensures
        t.take(i + 1).filter(active_pred()) == if t[i].1.is_active {
            t.take(i).filter(active_pred()).push(t[i])
        } else {
            t.take(i).filter(active_pred())
        },
{
    reveal(Seq::filter);
    assert(t.take(i + 1).drop_last() =~= t.take(i));
    assert(t.take(i + 1).last() == t[i]);
}

impl ServiceMap {
    /// What one successful aggregation pass guarantees, relating the
    /// engine before (`pre`) and after (`post`) and the returned
    /// cumulative snapshot `tot`. With `t` the raw table, `rv` the
    /// resolver and `a` the archive before the pass:
    /// - `tot` maps each connection to its live total (bytes of every
    ///   active raw entry aggregating under it) plus its archived total,
    ///   and holds exactly the connections one of those mentions;
    /// - the raw table afterwards holds exactly the active entries, in
    ///   order: every entry observed inactive has been removed;
    /// - the archive afterwards has gained exactly each inactive entry's
    ///   final byte count, under the connection it aggregates to
    ///   (entries aggregating to none are dropped, not archived);
    /// - the resolver, state, name, kind and metadata are untouched.
    pub open spec fn poll_good(pre: ServiceMap, post: ServiceMap, tot: Seq<(Connection, u64)>) -> bool {
        match pre.table_view() {
            None => false,
            Some(t) => {
                let rv = pre.resolver_view();
                let a = pre.archive_view();
                &&& totals_keys_unique(tot)
                &&& forall|c: Connection| #[trigger] totals_sum(tot, c) == active_total(t, rv, c)
                    + totals_sum(a, c)
                &&& forall|c: Connection| #[trigger] totals_contains(tot, c) <==> (active_exists(
                    t,
                    rv,
                    c,
                ) || totals_contains(a, c))
                &&& post.table_view() == Some(t.filter(active_pred()))
                &&& forall|c: Connection| #[trigger] totals_sum(post.archive_view(), c)
                    == totals_sum(a, c) + inactive_total(t, rv, c)
                &&& forall|c: Connection| #[trigger] totals_contains(post.archive_view(), c)
                    <==> (totals_contains(a, c) || inactive_exists(t, rv, c))
                &&& post.resolver_view() == rv
                &&& post.state_view() == pre.state_view()
                &&& post.name_view() == pre.name_view()
                &&& post.type_view() == pre.type_view()
                &&& post.metadata_view() == pre.metadata_view()
            },
        }
    }

    /// Fold one evicted raw entry's final byte count into the archive,
    /// under the connection it aggregates to; an entry aggregating to
    /// none (self-connection, loopback destination, unknown role,
    /// unresolvable endpoint) is dropped without touching the archive.
    fn handle_inactive_connection(&mut self, key: RawFlowKey, final_bytes: u64) -> (r: Result<
        (),
        AgentError,
    >)
        requires
            old(self).wf(),
            totals_value_sum(old(self).archive_view()) + final_bytes <= u64::MAX,
        ensures
            final(self).wf(),
            final(self).table_view() == old(self).table_view(),
            final(self).resolver_view() == old(self).resolver_view(),
            final(self).state_view() == old(self).state_view(),
            final(self).name_view() == old(self).name_view(),
            final(self).type_view() == old(self).type_view(),
            final(self).metadata_view() == old(self).metadata_view(),
            forall|c: Connection| #[trigger] totals_sum(final(self).archive_view(), c)
                == totals_sum(old(self).archive_view(), c) + if conn_of(
                old(self).resolver_view(),
                key,
            ) == Some(c) {
                final_bytes as int
            } else {
                0
            },
            forall|c: Connection| #[trigger] totals_contains(final(self).archive_view(), c)
                <==> (totals_contains(old(self).archive_view(), c) || conn_of(
                old(self).resolver_view(),
                key,
            ) == Some(c)),
            totals_value_sum(final(self).archive_view()) == totals_value_sum(
                old(self).archive_view(),
            ) + if conn_of(old(self).resolver_view(), key) is Some {
                final_bytes as int
            } else {
                0
            },
    {
        if key.src_addr == key.dest_addr || is_loopback_address(key.dest_addr) {
            return Ok(());
        }
        match self.build_connection(key) {
            Ok(conn) => {
                proof {
                    assert(conn_of(self.resolver_view(), key) == Some(conn));
                }
                self.past_conns_map.add(conn, final_bytes);
                Ok(())
            },
            Err(e) => {
                proof {
                    assert(conn_of(self.resolver_view(), key) is None);
                }
                Err(e)
            },
        }
    }

    /// One aggregation pass: scan the raw table accumulating every
    /// active, aggregatable entry's bytes per logical connection, add
    /// every archived total, then evict each entry observed inactive —
    /// removing it from the raw table and folding its final byte count
    /// into the archive. Returns the cumulative `Connection -> bytes`
    /// snapshot; fails only when no raw table handle is bound, leaving
    /// the engine untouched.
    pub fn poll(&mut self) -> (r: Result<ConnTotals, AgentError>)
        requires
            old(self).wf(),
            old(self).poll_fits(),
        ensures
            final(self).wf(),
            old(self).table_view() is None ==> {
                &&& r == Err::<ConnTotals, AgentError>(AgentError::NoConnectionsMap)
                &&& final(self).table_view() is None
                &&& final(self).archive_view() == old(self).archive_view()
                &&& final(self).resolver_view() == old(self).resolver_view()
                &&& final(self).state_view() == old(self).state_view()
                &&& final(self).name_view() == old(self).name_view()
                &&& final(self).type_view() == old(self).type_view()
                &&& final(self).metadata_view() == old(self).metadata_view()
            },
            old(self).table_view() is Some ==> r is Ok && Self::poll_good(
                *old(self),
                *final(self),
                (r->Ok_0)@,
            ),
    {
        let ghost pre = *self;
        let n = match &self.current_conns_map {
            Some(tb) => tb.len(),
            None => {
                return Err(AgentError::NoConnectionsMap);
            },
        };
        let ghost t = pre.table_view()->Some_0;
        let ghost rv = pre.resolver_view();
        let ghost a0 = pre.archive_view();

        let mut current = ConnTotals::new();
        let mut kept: Vec<(RawFlowKey, RawFlowStats)> = Vec::new();
        let mut evicted: Vec<(RawFlowKey, u64)> = Vec::new();
        let mut i: usize = 0;
        while i < n
            invariant
                *self == pre,
                pre.wf(),
                pre.poll_fits(),
                pre.table_view() == Some(t),
                table_keys_unique(t),
                rv == pre.resolver_view(),
                a0 == pre.archive_view(),
                n == t.len(),
                i <= n,
                current.wf(),
                forall|c: Connection| #[trigger] totals_sum(current@, c) == active_total(
                    t.take(i as int),
                    rv,
                    c,
                ),
                forall|c: Connection| #[trigger] totals_contains(current@, c) <==> active_exists(
                    t.take(i as int),
                    rv,
                    c,
                ),
                totals_value_sum(current@) == sum_by(t.take(i as int), resolved_bytes_weight(rv)),
                kept@ == t.take(i as int).filter(active_pred()),
                table_keys_unique(kept@),
                forall|x: RawFlowKey| #[trigger] crate::table::table_contains_key(kept@, x)
                    ==> crate::table::table_contains_key(t.take(i as int), x),
                forall|c: Connection| #[trigger] sum_by(evicted@, ev_conn_weight(rv, c))
                    == inactive_total(t.take(i as int), rv, c),
                forall|c: Connection| #[trigger] ev_mentions(evicted@, rv, c) <==> inactive_exists(
                    t.take(i as int),
                    rv,
                    c,
                ),
                sum_by(evicted@, ev_bytes_weight()) == sum_by(
                    t.take(i as int),
                    inactive_bytes_weight(),
                ),
            decreases n - i,
        {
            let (key, stats) = match &self.current_conns_map {
                Some(tb) => tb.entry_at(i),
                None => {
                    return Err(AgentError::NoConnectionsMap);
                },
            };
            proof {
                assert(t[i as int] == (key, stats));
                lemma_filter_take_step(t, i as int);
                lemma_exists_steps(t, rv, i as int);
                lemma_sum_by_take_step(t, i as int, resolved_bytes_weight(rv));
                lemma_sum_by_take_step(t, i as int, inactive_bytes_weight());
            }
            if !stats.is_active {
                let ghost ev0 = evicted@;
                evicted.push((key, stats.bytes_sent));
                proof {
                    assert forall|c: Connection| #[trigger] sum_by(evicted@, ev_conn_weight(rv, c))
                        == inactive_total(t.take(i as int + 1), rv, c) by {
                        crate::sums::lemma_sum_by_push(ev0, (key, stats.bytes_sent), ev_conn_weight(rv, c));
                        lemma_sum_by_take_step(t, i as int, inactive_weight(rv, c));
                    }
                    crate::sums::lemma_sum_by_push(ev0, (key, stats.bytes_sent), ev_bytes_weight());
                    lemma_ev_mentions_push(ev0, (key, stats.bytes_sent), rv);
                    assert forall|c: Connection| #[trigger] totals_sum(current@, c) == active_total(
                        t.take(i as int + 1),
                        rv,
                        c,
                    ) by {
                        lemma_sum_by_take_step(t, i as int, active_weight(rv, c));
                    }
                    assert(evicted@[ev0.len() as int] == (key, stats.bytes_sent));
                    assert(forall|j: int| 0 <= j < ev0.len() ==> evicted@[j] == ev0[j]);
                }
            } else {
                let ghost kept0 = kept@;
                kept.push((key, stats));
                proof {
                    assert(kept@ == kept0.push(t[i as int]));
                    assert(table_keys_unique(kept@)) by {
                        assert(forall|j: int| 0 <= j < kept0.len() ==> kept@[j] == kept0[j]);
                        assert(kept@[kept0.len() as int] == t[i as int]);
                        if crate::table::table_contains_key(kept0, key) {
                            assert(crate::table::table_contains_key(t.take(i as int), key));
                            let w = crate::table::table_index_of(t.take(i as int), key);
                            assert(0 <= w < i && t[w].0 == key);
                            assert(false);
                        }
                    }
                    assert forall|x: RawFlowKey| #[trigger] crate::table::table_contains_key(
                        kept@,
                        x,
                    ) implies crate::table::table_contains_key(t.take(i as int + 1), x) by {
                        let w = crate::table::table_index_of(kept@, x);
                        assert(0 <= w < kept@.len() && kept@[w].0 == x);
                        if w < kept0.len() {
                            assert(crate::table::table_contains_key(kept0, x));
                            let w2 = crate::table::table_index_of(t.take(i as int), x);
                            assert(t.take(i as int + 1)[w2] == t[w2]);
                        } else {
                            assert(t.take(i as int + 1)[i as int].0 == x);
                        }
                    }
                    assert forall|c: Connection| #[trigger] sum_by(evicted@, ev_conn_weight(rv, c))
                        == inactive_total(t.take(i as int + 1), rv, c) by {
                        lemma_sum_by_take_step(t, i as int, inactive_weight(rv, c));
                    }
                }
                let skip = key.src_addr == key.dest_addr || is_loopback_address(key.dest_addr)
                    || key.role == crate::flow::CONNECTION_ROLE_UNKNOWN;
                if !skip {
                    match self.build_connection(key) {
                        Ok(conn) => {
                            proof {
                                assert(conn_of(rv, key) == Some(conn));
                                // the accumulated value stays within range
                                assert(forall|j: int|
                                    0 <= j < t.len() ==> #[trigger] resolved_bytes_weight(rv)(
                                        t[j],
                                    ) >= 0);
                                assert(forall|j: int|
                                    0 <= j < t.len() ==> resolved_bytes_weight(rv)(t[j])
                                        <= #[trigger] bytes_weight()(t[j]));
                                crate::sums::lemma_sum_by_prefix_bound(
                                    t,
                                    i as int + 1,
                                    resolved_bytes_weight(rv),
                                    bytes_weight(),
                                );
                                crate::totals::lemma_totals_sum_bounds(a0, conn);
                                assert(resolved_bytes_weight(rv)(t[i as int])
                                    == stats.bytes_sent as int);
                            }
                            current.add(conn, stats.bytes_sent);
                            proof {
                                assert forall|c: Connection| #[trigger] totals_sum(current@, c)
                                    == active_total(t.take(i as int + 1), rv, c) by {
                                    lemma_sum_by_take_step(t, i as int, active_weight(rv, c));
                                    assert(active_weight(rv, c)(t[i as int]) == if c == conn {
                                        stats.bytes_sent as int
                                    } else {
                                        0
                                    });
                                }
                            }
                        },
                        Err(_) => {
                            proof {
                                assert(conn_of(rv, key) is None);
                                assert forall|c: Connection| #[trigger] totals_sum(current@, c)
                                    == active_total(t.take(i as int + 1), rv, c) by {
                                    lemma_sum_by_take_step(t, i as int, active_weight(rv, c));
                                }
                            }
                        },
                    }
                } else {
                    proof {
                        assert(conn_of(rv, key) is None);
                        assert forall|c: Connection| #[trigger] totals_sum(current@, c)
                            == active_total(t.take(i as int + 1), rv, c) by {
                            lemma_sum_by_take_step(t, i as int, active_weight(rv, c));
                        }
                    }
                }
            }
            i += 1;
        }
        proof {
            assert(t.take(n as int) =~= t);
        }

        // add every archived total into the same running snapshot
        let m = self.past_conns_map.len();
        let mut j: usize = 0;
        while j < m
            invariant
                *self == pre,
                pre.wf(),
                pre.poll_fits(),
                pre.table_view() == Some(t),
                rv == pre.resolver_view(),
                a0 == pre.archive_view(),
                m == a0.len(),
                j <= m,
                current.wf(),
                totals_keys_unique(a0),
                forall|c: Connection| #[trigger] totals_sum(current@, c) == active_total(t, rv, c)
                    + totals_sum(a0.take(j as int), c),
                forall|c: Connection| #[trigger] totals_contains(current@, c) <==> (active_exists(
                    t,
                    rv,
                    c,
                ) || totals_contains(a0.take(j as int), c)),
                totals_value_sum(current@) == sum_by(t, resolved_bytes_weight(rv))
                    + totals_value_sum(a0.take(j as int)),
            decreases m - j,
        {
            let (conn, bytes) = self.past_conns_map.entry_at(j);
            proof {
                assert(a0[j as int] == (conn, bytes));
                // the accumulated value stays within range
                assert(forall|jj: int|
                    0 <= jj < t.len() ==> #[trigger] resolved_bytes_weight(rv)(t[jj]) >= 0);
                assert(forall|jj: int|
                    0 <= jj < t.len() ==> resolved_bytes_weight(rv)(t[jj]) <= #[trigger] bytes_weight()(
                        t[jj],
                    ));
                crate::sums::lemma_sum_by_prefix_bound(t, t.len() as int, resolved_bytes_weight(rv), bytes_weight());
                assert(t.take(t.len() as int) =~= t);
                assert(forall|jj: int|
                    0 <= jj < a0.len() ==> #[trigger] crate::totals::value_weight()(a0[jj]) >= 0);
                crate::sums::lemma_sum_by_prefix_bound(
                    a0,
                    j as int + 1,
                    crate::totals::value_weight(),
                    crate::totals::value_weight(),
                );
                lemma_sum_by_take_step(a0, j as int, crate::totals::value_weight());
                assert(crate::totals::value_weight()(a0[j as int]) == bytes as int);
            }
            current.add(conn, bytes);
            proof {
                crate::totals::lemma_totals_contains_take_step(a0, j as int);
                assert forall|c: Connection| #[trigger] totals_sum(current@, c) == active_total(
                    t,
                    rv,
                    c,
                ) + totals_sum(a0.take(j as int + 1), c) by {
                    lemma_sum_by_take_step(a0, j as int, crate::totals::conn_weight(c));
                    assert(crate::totals::conn_weight(c)(a0[j as int]) == if a0[j as int].0 == c {
                        bytes as int
                    } else {
                        0
                    });
                }
            }
            j += 1;
        }
        proof {
            assert(a0.take(m as int) =~= a0);
        }

        // evict: replace the raw table by its active entries and fold each
        // inactive entry's final bytes into the archive
        self.current_conns_map = Some(RawTable::from_entries(kept));
        let e = evicted.len();
        let mut k: usize = 0;
        while k < e
            invariant
                self.wf(),
                pre.wf(),
                pre.poll_fits(),
                pre.table_view() == Some(t),
                rv == pre.resolver_view(),
                a0 == pre.archive_view(),
                self.table_view() == Some(t.filter(active_pred())),
                self.resolver_view() == rv,
                self.state_view() == pre.state_view(),
                self.name_view() == pre.name_view(),
                self.type_view() == pre.type_view(),
                self.metadata_view() == pre.metadata_view(),
                e == evicted@.len(),
                k <= e,
                forall|c: Connection| #[trigger] sum_by(evicted@, ev_conn_weight(rv, c))
                    == inactive_total(t, rv, c),
                forall|c: Connection| #[trigger] ev_mentions(evicted@, rv, c) <==> inactive_exists(
                    t,
                    rv,
                    c,
                ),
                sum_by(evicted@, ev_bytes_weight()) == sum_by(t, inactive_bytes_weight()),
                forall|c: Connection| #[trigger] totals_sum(self.archive_view(), c) == totals_sum(
                    a0,
                    c,
                ) + sum_by(evicted@.take(k as int), ev_conn_weight(rv, c)),
                forall|c: Connection| #[trigger] totals_contains(self.archive_view(), c)
                    <==> (totals_contains(a0, c) || ev_mentions(evicted@.take(k as int), rv, c)),
                totals_value_sum(self.archive_view()) == totals_value_sum(a0) + sum_by(
                    evicted@.take(k as int),
                    ev_resolved_weight(rv),
                ),
            decreases e - k,
        {
            let (key, bytes) = evicted[k];
            proof {
                assert(evicted@[k as int] == (key, bytes));
                // the archive's grand total stays within range
                assert(forall|jj: int|
                    0 <= jj < evicted@.len() ==> #[trigger] ev_resolved_weight(rv)(evicted@[jj])
                        >= 0);
                assert(forall|jj: int|
                    0 <= jj < evicted@.len() ==> ev_resolved_weight(rv)(evicted@[jj])
                        <= #[trigger] ev_bytes_weight()(evicted@[jj]));
                crate::sums::lemma_sum_by_prefix_bound(
                    evicted@,
                    k as int + 1,
                    ev_resolved_weight(rv),
                    ev_bytes_weight(),
                );
                lemma_sum_by_take_step(evicted@, k as int, ev_bytes_weight());
                crate::sums::lemma_sum_by_prefix_bound(
                    evicted@,
                    k as int + 1,
                    ev_bytes_weight(),
                    ev_bytes_weight(),
                );
                assert(forall|jj: int|
                    0 <= jj < evicted@.take(k as int).len() ==> evicted@.take(k as int)[jj]
                        == evicted@[jj]);
                crate::sums::lemma_sum_by_le(
                    evicted@.take(k as int),
                    ev_resolved_weight(rv),
                    ev_bytes_weight(),
                );
                assert(forall|jj: int|
                    0 <= jj < t.len() ==> 0 <= #[trigger] inactive_bytes_weight()(t[jj]));
                assert(forall|jj: int|
                    0 <= jj < t.len() ==> inactive_bytes_weight()(t[jj]) <= #[trigger] bytes_weight()(
                        t[jj],
                    ));
                crate::sums::lemma_sum_by_prefix_bound(t, t.len() as int, inactive_bytes_weight(), bytes_weight());
                assert(t.take(t.len() as int) =~= t);
                lemma_sum_by_take_step(evicted@, k as int, ev_resolved_weight(rv));
                assert(ev_resolved_weight(rv)(evicted@[k as int]) == if conn_of(rv, key) is Some {
                    bytes as int
                } else {
                    0
                });
                crate::totals::lemma_totals_sum_bounds(a0, Connection {
                    client: 0,
                    server: 0,
                    role: 0,
                    server_port: 0,
                });
            }
            let _ = self.handle_inactive_connection(key, bytes);
            proof {
                lemma_ev_mentions_take_step(evicted@, rv, k as int);
                assert forall|c: Connection| #[trigger] totals_sum(self.archive_view(), c)
                    == totals_sum(a0, c) + sum_by(
                    evicted@.take(k as int + 1),
                    ev_conn_weight(rv, c),
                ) by {
                    lemma_sum_by_take_step(evicted@, k as int, ev_conn_weight(rv, c));
                    assert(ev_conn_weight(rv, c)(evicted@[k as int]) == if conn_of(rv, key)
                        == Some(c) {
                        bytes as int
                    } else {
                        0
                    });
                }
            }
            k += 1;
        }
        proof {
            assert(evicted@.take(e as int) =~= evicted@);
        }
        Ok(current)
    }

    /// Whether one poll cycle's accumulation would stay within `u64`
    /// range: callers that cannot establish `poll_fits` by other means
    /// test it with this before polling.
    pub fn poll_ready(&self) -> (r: bool)
        requires
            self.wf(),
        ensures
            r == self.poll_fits(),
    {
        let table = match &self.current_conns_map {
            Some(t) => t,
            None => {
                return true;
            },
        };
        let ghost t = table@;
        let ghost a0 = self.past_conns_map@;
        let limit: u128 = u64::MAX as u128;
        let mut acc: u128 = 0;
        let n = table.len();
        let mut i: usize = 0;
        while i < n
            invariant
                self.wf(),
                self.table_view() == Some(t),
                a0 == self.past_conns_map@,
                table@ == t,
                n == t.len(),
                i <= n,
                limit == u64::MAX as u128,
                acc as int == bytes_total(t.take(i as int)),
                acc <= limit,
            decreases n - i,
        {
            let (_, stats) = table.entry_at(i);
            proof {
                lemma_sum_by_take_step(t, i as int, bytes_weight());
                assert(bytes_weight()(t[i as int]) == stats.bytes_sent as int);
            }
            acc = acc + stats.bytes_sent as u128;
            if acc > limit {
                proof {
                    assert(forall|j: int|
                        0 <= j < t.len() ==> #[trigger] bytes_weight()(t[j]) >= 0);
                    crate::sums::lemma_sum_by_prefix_bound(
                        t,
                        i as int + 1,
                        bytes_weight(),
                        bytes_weight(),
                    );
                    crate::totals::lemma_totals_sum_bounds(a0, Connection {
                        client: 0,
                        server: 0,
                        role: 0,
                        server_port: 0,
                    });
                }
                return false;
            }
            i += 1;
        }
        proof {
            assert(t.take(n as int) =~= t);
        }
        let m = self.past_conns_map.len();
        let mut j: usize = 0;
        while j < m
            invariant
                self.wf(),
                self.table_view() == Some(t),
                a0 == self.past_conns_map@,
                m == a0.len(),
                j <= m,
                limit == u64::MAX as u128,
                acc as int == bytes_total(t) + totals_value_sum(a0.take(j as int)),
                acc <= limit,
                bytes_total(t) >= 0,
            decreases m - j,
        {
            let (_, bytes) = self.past_conns_map.entry_at(j);
            proof {
                lemma_sum_by_take_step(a0, j as int, crate::totals::value_weight());
                assert(crate::totals::value_weight()(a0[j as int]) == bytes as int);
            }
            acc = acc + bytes as u128;
            if acc > limit {
                proof {
                    assert(forall|jj: int|
                        0 <= jj < a0.len() ==> #[trigger] crate::totals::value_weight()(a0[jj])
                            >= 0);
                    crate::sums::lemma_sum_by_prefix_bound(
                        a0,
                        j as int + 1,
                        crate::totals::value_weight(),
                        crate::totals::value_weight(),
                    );
                }
                return false;
            }
            j += 1;
        }
        proof {
            assert(a0.take(m as int) =~= a0);
        }
        true
    }

    /// Clear the raw table handle, archive and metadata, and return the
    /// state to `Uninitialized`. The resolver binding is kept, as it is
    /// owned by an external collaborator.
    pub fn reset(&mut self) -> (r: Result<(), AgentError>)
        requires
            old(self).wf(),
        ensures
            final(self).wf(),
            r is Ok,
            final(self).state_view() == ProgramState::Uninitialized,
            final(self).table_view() is None,
            final(self).archive_view() == Seq::<(Connection, u64)>::empty(),
            final(self).metadata_view() == Seq::<(Seq<char>, Seq<char>)>::empty(),
            final(self).name_view() == old(self).name_view(),
            final(self).type_view() == old(self).type_view(),
            final(self).resolver_view() == old(self).resolver_view(),
    {
        self.current_conns_map = None;
        self.past_conns_map = ConnTotals::new();
        self.metadata = Vec::new();
        self.program_state = ProgramState::Uninitialized;
        proof {
            assert(self.metadata_view() =~= Seq::<(Seq<char>, Seq<char>)>::empty());
        }
        Ok(())
    }

    /// Bind the engine to its collaborators: store the metadata and the
    /// identity resolver, then adopt the raw table handle. When the
    /// binding failed upstream (`None`), the metadata and resolver are
    /// still stored — mirroring that they are bound first — but the call
    /// fails and the state does not advance.
    pub fn init(
        &mut self,
        metadata: Vec<(String, String)>,
        cache_manager: Resolver,
        table: Option<RawTable>,
    ) -> (r: Result<(), AgentError>)
        requires
            old(self).wf(),
            cache_manager.wf(),
            match table {
                Some(tb) => tb.wf(),
                None => true,
            },
        ensures
            final(self).wf(),
            final(self).metadata_view() == metadata@.map_values(
                |p: (String, String)| (p.0@, p.1@),
            ),
            final(self).resolver_view() == cache_manager@,
            final(self).archive_view() == old(self).archive_view(),
            final(self).name_view() == old(self).name_view(),
            final(self).type_view() == old(self).type_view(),
            match table {
                Some(tb) => {
                    &&& r is Ok
                    &&& final(self).state_view() == ProgramState::Initialized
                    &&& final(self).table_view() == Some(tb@)
                },
                None => {
                    &&& r == Err::<(), AgentError>(AgentError::MapBindingFailed)
                    &&& final(self).state_view() == old(self).state_view()
                    &&& final(self).table_view() == old(self).table_view()
                },
            },
    {
        self.metadata = metadata;
        self.cache_mgr = Some(cache_manager);
        match table {
            Some(tb) => {
                self.current_conns_map = Some(tb);
                self.program_state = ProgramState::Initialized;
                Ok(())
            },
            None => Err(AgentError::MapBindingFailed),
        }
    }

    /// Record one raw flow observation in the bound raw table, as the
    /// kernel side does: stats stored under the key replace any earlier
    /// ones, atomically per key; every other entry is untouched. Fails
    /// only when no raw table handle is bound.
    pub fn update_flow(&mut self, key: RawFlowKey, stats: RawFlowStats) -> (r: Result<
        (),
        AgentError,
    >)
        requires
            old(self).wf(),
        ensures
            final(self).wf(),
            final(self).state_view() == old(self).state_view(),
            final(self).name_view() == old(self).name_view(),
            final(self).type_view() == old(self).type_view(),
            final(self).metadata_view() == old(self).metadata_view(),
            final(self).archive_view() == old(self).archive_view(),
            final(self).resolver_view() == old(self).resolver_view(),
            old(self).table_view() is None ==> r == Err::<(), AgentError>(
                AgentError::NoConnectionsMap,
            ) && final(self).table_view() is None,
            old(self).table_view() is Some ==> {
                &&& r is Ok
                &&& final(self).table_view() is Some
                &&& crate::table::table_lookup(final(self).table_view()->Some_0, key) == Some(stats)
                &&& forall|k2: RawFlowKey|
                    k2 != key ==> #[trigger] crate::table::table_lookup(
                        final(self).table_view()->Some_0,
                        k2,
                    ) == crate::table::table_lookup(old(self).table_view()->Some_0, k2)
            },
    {
        match &mut self.current_conns_map {
            Some(table) => {
                table.insert(key, stats);
                Ok(())
            },
            None => Err(AgentError::NoConnectionsMap),
        }
    }

    /// Move from `Initialized` to `Running`. On an engine in any other
    /// state — in particular one never initialized, which has no raw
    /// table handle — the call fails deterministically and changes
    /// nothing.
    pub fn start_begin(&mut self) -> (r: Result<(), AgentError>)
        requires
            old(self).wf(),
        ensures
            final(self).wf(),
            old(self).state_view() == ProgramState::Initialized ==> {
                &&& r is Ok
                &&& final(self).state_view() == ProgramState::Running
            },
            old(self).state_view() != ProgramState::Initialized ==> {
                &&& r == Err::<(), AgentError>(AgentError::NotInitialized)
                &&& final(self).state_view() == old(self).state_view()
            },
            final(self).table_view() == old(self).table_view(),
            final(self).archive_view() == old(self).archive_view(),
            final(self).resolver_view() == old(self).resolver_view(),
            final(self).metadata_view() == old(self).metadata_view(),
            final(self).name_view() == old(self).name_view(),
            final(self).type_view() == old(self).type_view(),
    {
        match self.program_state {
            ProgramState::Initialized => {
                self.program_state = ProgramState::Running;
                Ok(())
            },
            _ => Err(AgentError::NotInitialized),
        }
    }

    /// Service one event of the running poll loop. A timer tick performs
    /// one aggregation pass; if that pass fails structurally (the raw
    /// table handle is absent), the engine tears its internal maps down
    /// and moves to `Failed`, which is terminal. A shutdown addressed to
    /// all programs or to this one by name stops the loop (the caller
    /// then resets the engine); one addressed to another program is
    /// ignored.
    pub fn start_step(&mut self, event: StartEvent) -> (r: StepOutcome)
        requires
            old(self).wf(),
            old(self).poll_fits(),
            old(self).state_view() == ProgramState::Running,
        ensures
            final(self).wf(),
            match event {
                StartEvent::Tick => {
                    if old(self).table_view() is Some {
                        &&& r is Polled
                        &&& Self::poll_good(*old(self), *final(self), (r->Polled_0)@)
                        &&& final(self).state_view() == ProgramState::Running
                    } else {
                        &&& r == StepOutcome::Fatal(AgentError::NoConnectionsMap)
                        &&& final(self).state_view() == ProgramState::Failed
                        &&& final(self).table_view() is None
                        &&& final(self).archive_view() == Seq::<(Connection, u64)>::empty()
                        &&& final(self).metadata_view() == Seq::<(Seq<char>, Seq<char>)>::empty()
                    }
                },
                StartEvent::Shutdown(ShutdownSignal::All) => {
                    &&& r == StepOutcome::Stop
                    &&& *final(self) == *old(self)
                },
                StartEvent::Shutdown(ShutdownSignal::ProgramName(nm)) => {
                    if nm@ == old(self).name_view() {
                        &&& r == StepOutcome::Stop
                        &&& *final(self) == *old(self)
                    } else {
                        &&& r == StepOutcome::Continue
                        &&& *final(self) == *old(self)
                    }
                },
            },
    {
        match event {
            StartEvent::Tick => {
                match self.poll() {
                    Ok(totals) => StepOutcome::Polled(totals),
                    Err(e) => {
                        // structural failure: tear the internal maps down
                        // and report once; `Failed` is terminal
                        self.current_conns_map = None;
                        self.past_conns_map = ConnTotals::new();
                        self.metadata = Vec::new();
                        self.program_state = ProgramState::Failed;
                        proof {
                            assert(self.metadata_view() =~= Seq::<(Seq<char>, Seq<char>)>::empty());
                        }
                        StepOutcome::Fatal(e)
                    },
                }
            },
            StartEvent::Shutdown(signal) => {
                match signal {
                    ShutdownSignal::All => StepOutcome::Stop,
                    ShutdownSignal::ProgramName(nm) => {
                        if nm == self.name {
                            StepOutcome::Stop
                        } else {
                            StepOutcome::Continue
                        }
                    },
                }
            },
        }
    }

    /// The metrics-encoding extension point: currently a no-op that
    /// always succeeds.
    pub fn collect(&self) -> (r: Result<(), AgentError>)
        ensures
            r is Ok,
    {
        Ok(())
    }

    /// The engine's name.
    pub fn get_name(&self) -> (r: String)
        ensures
            r@ == self.name_view(),
    {
        self.name.clone()
    }

    /// The engine's lifecycle state.
    pub fn get_state(&self) -> (r: ProgramState)
        ensures
            r == self.state_view(),
    {
        self.program_state
    }

    /// Set the lifecycle state.
    pub fn set_state(&mut self, state: ProgramState)
        requires
            old(self).wf(),
        ensures
            final(self).wf(),
            final(self).state_view() == state,
            final(self).table_view() == old(self).table_view(),
            final(self).archive_view() == old(self).archive_view(),
            final(self).resolver_view() == old(self).resolver_view(),
            final(self).metadata_view() == old(self).metadata_view(),
            final(self).name_view() == old(self).name_view(),
            final(self).type_view() == old(self).type_view(),
    {
        self.program_state = state;
    }

    /// The engine's program kind.
    pub fn get_type(&self) -> (r: ProgramType)
        ensures
            r == self.type_view(),
    {
        self.program_type
    }

    /// A copy of the engine's metadata.
    pub fn get_metadata(&self) -> (r: Vec<(String, String)>)
        ensures
            r@.map_values(|p: (String, String)| (p.0@, p.1@)) == self.metadata_view(),
    {
        let n = self.metadata.len();
        let mut out: Vec<(String, String)> = Vec::new();
        let mut i: usize = 0;
        while i < n
            invariant
                n == self.metadata@.len(),
                i <= n,
                out@ =~= self.metadata@.take(i as int),
            decreases n - i,
        {
            let k = self.metadata[i].0.clone();
            let v = self.metadata[i].1.clone();
            out.push((k, v));
            proof {
                assert(out@ =~= self.metadata@.take(i as int + 1));
            }
            i += 1;
        }
        proof {
            assert(out@ =~= self.metadata@);
        }
        out
    }

    /// Replace the engine's metadata.
    pub fn set_metadata(&mut self, metadata: Vec<(String, String)>)
        requires
            old(self).wf(),
        ensures
            final(self).wf(),
            final(self).metadata_view() == metadata@.map_values(
                |p: (String, String)| (p.0@, p.1@),
            ),
            final(self).state_view() == old(self).state_view(),
            final(self).table_view() == old(self).table_view(),
            final(self).archive_view() == old(self).archive_view(),
            final(self).resolver_view() == old(self).resolver_view(),
            final(self).name_view() == old(self).name_view(),
            final(self).type_view() == old(self).type_view(),
    {
        self.metadata = metadata;
    }

    /// Describe the engine in the external info schema. Fails with a
    /// parse error exactly when the program kind has no schema code; the
    /// engine's own kind (built-in) always has one.
    pub fn get_program_info(&self) -> (r: Result<ProgramInfo, ParseError>)
        ensures
            self.type_view() is Builtin ==> {
                &&& r is Ok
                &&& (r->Ok_0).name@ == self.name_view()
                &&& (r->Ok_0).program_type == 0u32
                &&& (r->Ok_0).state == program_state_code_spec(self.state_view())
                &&& (r->Ok_0).metadata@.map_values(|p: (String, String)| (p.0@, p.1@))
                    == self.metadata_view()
            },
            self.type_view() is Wasm ==> r == Err::<ProgramInfo, ParseError>(
                ParseError::UnsupportedProgramType,
            ),
    {
        let program_type = match program_type_code(self.get_type()) {
            Ok(code) => code,
            Err(e) => {
                return Err(e);
            },
        };
        let state = match program_state_code(self.get_state()) {
            Ok(code) => code,
            Err(e) => {
                return Err(e);
            },
        };
        Ok(ProgramInfo { name: self.get_name(), program_type, state, metadata: self.get_metadata() })
    }

    /// Whether two engines agree on every observable view, including
    /// well-formedness.
    pub open spec fn views_eq(a: &ServiceMap, b: &ServiceMap) -> bool {
        &&& a.name_view() == b.name_view()
        &&& a.state_view() == b.state_view()
        &&& a.type_view() == b.type_view()
        &&& a.metadata_view() == b.metadata_view()
        &&& a.table_view() == b.table_view()
        &&& a.archive_view() == b.archive_view()
        &&& a.resolver_view() == b.resolver_view()
        &&& (a.wf() <==> b.wf())
    }
}

impl Clone for ServiceMap {
    /// A clone agrees with the original on every observable view.
    fn clone(&self) -> (r: Self)
        ensures
            ServiceMap::views_eq(&r, self),
    {
        let r = ServiceMap {
            name: self.name.clone(),
            program_type: self.program_type,
            program_state: self.program_state,
            metadata: self.get_metadata(),
            current_conns_map: match &self.current_conns_map {
                Some(t) => Some(t.clone()),
                None => None,
            },
            past_conns_map: self.past_conns_map.clone(),
            cache_mgr: match &self.cache_mgr {
                Some(c) => Some(c.clone()),
                None => None,
            },
        };
        r
    }
}

/// The identifier recorded for the raw connection table, scanning the
/// provided `map name -> program id` entries from position `i`: the first
/// entry named `CONNECTIONS`.
pub open spec fn connections_map_id_from(s: Seq<(String, u32)>, i: int) -> Option<u32>
    decreases s.len() - i,
{
    if i < 0 || i >= s.len() {
        None
    } else if s[i].0@ == "CONNECTIONS"@ {
        Some(s[i].1)
    } else {
        connections_map_id_from(s, i + 1)
    }
}

/// The program id under which the raw connection table is pinned, out of
/// the `map name -> program id` entries handed to initialization: the
/// first entry named `CONNECTIONS`, or `None` — the binding failure —
/// when there is none.
pub fn find_connections_map(maps: &Vec<(String, u32)>) -> (r: Option<u32>)
    ensures
        r == connections_map_id_from(maps@, 0),
{
    let wanted: String = "CONNECTIONS".to_owned();
    let n = maps.len();
    let mut i: usize = 0;
    while i < n
        invariant
            wanted@ == "CONNECTIONS"@,
            n == maps@.len(),
            i <= n,
            connections_map_id_from(maps@, 0) == connections_map_id_from(maps@, i as int),
        decreases n - i,
    {
        if maps[i].0 == wanted {
            return Some(maps[i].1);
        }
        i += 1;
    }
    None
}

/// Self-connections and loopback destinations never appear in the
/// output, for any input: such a raw entry aggregates under no
/// connection, so it weighs nothing towards any connection's live or
/// evicted total and can witness no connection's presence in a poll's
/// snapshot or in the archive.
pub proof fn lemma_self_and_loopback_excluded(
    r: Seq<(u32, u64)>,
    k: RawFlowKey,
    st: RawFlowStats,
    c: Connection,
)
    requires
        k.src_addr == k.dest_addr || is_loopback_spec(k.dest_addr),
    ensures
        conn_of(r, k) is None,
        active_weight(r, c)((k, st)) == 0,
        inactive_weight(r, c)((k, st)) == 0,
{
}

/// Unresolvable endpoints never appear in the output: a raw entry either
/// of whose endpoints the resolver cannot identify aggregates under no
/// connection, so it weighs nothing towards any connection's total and
/// can witness no connection's presence. Nor can it make a poll fail: a
/// poll's outcome depends only on whether a raw table handle is bound.
pub proof fn lemma_unresolvable_excluded(
    r: Seq<(u32, u64)>,
    k: RawFlowKey,
    st: RawFlowStats,
    c: Connection,
)
    requires
        resolve_spec(r, k.src_addr) is None || resolve_spec(r, k.dest_addr) is None,
    ensures
        conn_of(r, k) is None,
        active_weight(r, c)((k, st)) == 0,
        inactive_weight(r, c)((k, st)) == 0,
{
}

/// Role-based port selection: a client-role raw entry aggregates under a
/// connection whose server port is the entry's destination port, and a
/// server-role entry under one whose server port is the entry's source
/// port (the side that was listening).
pub proof fn lemma_role_port_selection(r: Seq<(u32, u64)>, k: RawFlowKey)
    requires
        resolve_spec(r, k.src_addr) is Some,
        resolve_spec(r, k.dest_addr) is Some,
        k.src_addr != k.dest_addr,
        !is_loopback_spec(k.dest_addr),
    ensures
        k.role == CONNECTION_ROLE_CLIENT ==> conn_of(r, k) is Some && (conn_of(
            r,
            k,
        )->Some_0).server_port == k.dest_port,
        k.role == CONNECTION_ROLE_SERVER ==> conn_of(r, k) is Some && (conn_of(
            r,
            k,
        )->Some_0).server_port == k.src_port,
{
}

/// Every entry of the active filtrate is an entry of the original table.
proof fn lemma_filter_sub(t: Seq<(RawFlowKey, RawFlowStats)>)
    ensures
        forall|i: int|
            0 <= i < t.filter(active_pred()).len() ==> t.contains(
                #[trigger] t.filter(active_pred())[i],
            ),
    decreases t.len(),
{
    reveal(Seq::filter);
    if t.len() > 0 {
        lemma_filter_sub(t.drop_last());
        let f = t.filter(active_pred());
        let fd = t.drop_last().filter(active_pred());
        assert forall|i: int| 0 <= i < f.len() implies t.contains(#[trigger] f[i]) by {
            if i < fd.len() {
                assert(fd[i] == f[i]);
                assert(t.drop_last().contains(fd[i]));
                let w = choose|w: int|
                    0 <= w < t.drop_last().len() && t.drop_last()[w] == fd[i];
                assert(t[w] == fd[i]);
            } else {
                assert(f[i] == t.last());
                assert(t[t.len() - 1] == t.last());
            }
        }
    }
}

/// Eviction is exactly once: a raw entry observed inactive in one pass
/// is absent from the raw table the next pass sees — the active filtrate
/// of a unique-keyed table no longer holds its key — while its final
/// byte count stands in the pass's archive gain, which counts every
/// entry a single time.
pub proof fn lemma_evicted_entry_absent(t: Seq<(RawFlowKey, RawFlowStats)>, k: RawFlowKey)
    requires
        table_keys_unique(t),
        crate::table::table_contains_key(t, k),
        !(crate::table::table_lookup(t, k)->Some_0).is_active,
    ensures
        !crate::table::table_contains_key(t.filter(active_pred()), k),
{
    broadcast use vstd::seq_lib::group_filter_ensures;

    let f = t.filter(active_pred());
    lemma_filter_sub(t);
    let wt = crate::table::table_index_of(t, k);
    assert(0 <= wt < t.len() && t[wt].0 == k);
    assert(!t[wt].1.is_active);
    if crate::table::table_contains_key(f, k) {
        let wf_ = crate::table::table_index_of(f, k);
        assert(0 <= wf_ < f.len() && f[wf_].0 == k);
        assert(active_pred()(f[wf_]));
        assert(t.contains(f[wf_]));
        let w2 = choose|w2: int| 0 <= w2 < t.len() && t[w2] == f[wf_];
        assert(t[w2].0 == k);
        assert(w2 == wt);
        assert(false);
    }
}

/// One event of the running poll loop: the periodic timer tick, or a
/// shutdown signal delivered on the broadcast channel.
pub enum StartEvent {
    Tick,
    Shutdown(ShutdownSignal),
}

/// What servicing one loop event decided: a completed aggregation pass
/// with its snapshot, a request to stop, nothing (a shutdown addressed
/// elsewhere), or a fatal structural failure.
pub enum StepOutcome {
    Polled(ConnTotals),
    Stop,
    Continue,
    Fatal(AgentError),
}

} // verus!
