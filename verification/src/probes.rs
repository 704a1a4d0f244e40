//! The kernel-space syscall correlation protocol.
//!
//! Each traffic-producing syscall is observed by two independent,
//! unordered probes: an entry probe that captures the syscall's arguments
//! and a return probe that learns its returned byte count. The pairing
//! runs through per-thread scratch tables: entry inserts a record keyed by
//! the invoking thread's identifier, return looks it up, combines it with
//! the byte count into one traffic sample, and removes it. A single
//! kernel thread cannot be inside two instances of the same blocking
//! syscall at once, so at most one scratch record per thread and family
//! ever exists — the tables are keyed uniquely by thread id.
//!
//! The protocol prefers losing a sample over blocking or erroring the
//! kernel path: a return with no matching scratch record is silently
//! dropped, and an entry that cannot insert into a full table fails
//! without retry (a bounded degradation).

use vstd::prelude::*;

verus! {

/// Which syscall family produced a scratch record.
#[derive(Clone, Copy, PartialEq, Eq, Structural, Debug)]
pub enum SourceFunction {
    SyscallSend,
    SyscallRecvMsg,
}

/// Which way the observed traffic flows.
#[derive(Clone, Copy, PartialEq, Eq, Structural, Debug)]
pub enum TrafficDirection {
    Ingress,
    Egress,
}

/// The entry-probe capture of a data syscall: the file descriptor and
/// either a single buffer address (send family) or a scatter/gather
/// vector address and length (recvmsg family). Addresses are kernel
/// pointers carried as plain numbers; zero stands for null.
#[derive(Clone, Copy, PartialEq, Eq, Structural, Debug)]
pub struct DataArgs {
    pub source_function: SourceFunction,
    pub sock_event: bool,
    pub fd: i32,
    pub buf: u64,
    pub iov: u64,
    pub iovlen: u64,
    pub msg_len: u64,
}

/// The secondary capture of a recvmsg entry whose message header names a
/// destination address: a possible implicit connect to resolve later.
#[derive(Clone, Copy, PartialEq, Eq, Structural, Debug)]
pub struct ConnectArgs {
    pub sockaddr: u64,
    pub fd: i32,
}

/// What the recvmsg entry probe reads out of the user message header.
#[derive(Clone, Copy, PartialEq, Eq, Structural, Debug)]
pub struct MsgHdr {
    pub msg_name: u64,
    pub msg_iov: u64,
    pub msg_iovlen: u64,
}

/// One correlated traffic sample: an entry capture paired with its
/// syscall's returned byte count, ready for the byte-accounting routine
/// that maintains the raw connection table.
#[derive(Clone, Copy, PartialEq, Eq, Structural, Debug)]
pub struct TrafficSample {
    pub tid: u64,
    pub direction: TrafficDirection,
    pub args: DataArgs,
    pub bytes_count: i64,
}

/// Whether no two records share a thread id.
pub open spec fn scratch_keys_unique<V>(s: Seq<(u64, V)>) -> bool {
    forall|i: int, j: int| 0 <= i < j < s.len() ==> s[i].0 != s[j].0
}

/// Whether some record is keyed by `tid`.
pub open spec fn scratch_contains<V>(s: Seq<(u64, V)>, tid: u64) -> bool {
    exists|i: int| 0 <= i < s.len() && s[i].0 == tid
}

/// The position of the record keyed by `tid` (meaningful when one
/// exists).
pub open spec fn scratch_index_of<V>(s: Seq<(u64, V)>, tid: u64) -> int {
    choose|i: int| 0 <= i < s.len() && s[i].0 == tid
}

/// The record stored under `tid`, if any.
pub open spec fn scratch_lookup<V>(s: Seq<(u64, V)>, tid: u64) -> Option<V> {
    if scratch_contains(s, tid) {
        Some(s[scratch_index_of(s, tid)].1)
    } else {
        None
    }
}

/// A fixed-capacity scratch table keyed by thread id, mirroring a
/// kernel-resident per-thread map: insert updates an existing record or,
/// while there is room, adds one; a full table rejects new records.
#[verifier::reject_recursive_types(V)]
pub struct ScratchTable<V> {
    entries: Vec<(u64, V)>,
    capacity: usize,
}

impl<V: Copy> ScratchTable<V> {
    /// The sequence of keyed records this table holds.
    pub closed spec fn view(&self) -> Seq<(u64, V)> {
        self.entries@
    }

    /// The fixed capacity the table was created with.
    pub closed spec fn cap(&self) -> usize {
        self.capacity
    }

    /// Well-formed: thread ids are unique and the record count is within
    /// capacity.
    pub open spec fn wf(&self) -> bool {
        &&& scratch_keys_unique(self@)
        &&& self@.len() <= self.cap()
    }

    /// Whether an insert for `tid` would succeed: the record already
    /// exists (and would be replaced) or there is room for a new one.
    pub open spec fn accepts(&self, tid: u64) -> bool {
        scratch_contains(self@, tid) || self@.len() < self.cap()
    }

    /// An empty table of the given capacity.
    pub fn new(capacity: usize) -> (r: ScratchTable<V>)
        ensures
            r.wf(),
            r@ == Seq::<(u64, V)>::empty(),
            r.cap() == capacity,
    {
        let r = ScratchTable { entries: Vec::new(), capacity };
        proof {
            assert(r@ =~= Seq::<(u64, V)>::empty());
        }
        r
    }

    /// The record stored under `tid`, if any.
    pub fn lookup(&self, tid: u64) -> (r: Option<V>)
        requires
            self.wf(),
        ensures
            r == scratch_lookup(self@, tid),
    {
        let n = self.entries.len();
        let mut i: usize = 0;
        while i < n
            invariant
                self.wf(),
                n == self@.len(),
                i <= n,
                forall|j: int| 0 <= j < i ==> self@[j].0 != tid,
            decreases n - i,
        {
            let (k, v) = self.entries[i];
            if k == tid {
                proof {
                    assert(scratch_contains(self@, tid));
                    let w = scratch_index_of(self@, tid);
                    assert(0 <= w < self@.len() && self@[w].0 == tid);
                    assert(w == i as int);
                }
                return Some(v);
            }
            i += 1;
        }
        proof {
            assert(!scratch_contains(self@, tid));
        }
        None
    }

    /// Store `value` under `tid`, replacing any existing record for that
    /// thread; a table that is full and holds no record for `tid`
    /// rejects the insert and is unchanged.
    pub fn insert(&mut self, tid: u64, value: V) -> (r: Result<(), i64>)
        requires
            old(self).wf(),
        ensures
            final(self).wf(),
            final(self).cap() == old(self).cap(),
            old(self).accepts(tid) ==> {
                &&& r is Ok
                &&& scratch_lookup(final(self)@, tid) == Some(value)
                &&& forall|t2: u64|
                    t2 != tid ==> #[trigger] scratch_lookup(final(self)@, t2) == scratch_lookup(
                        old(self)@,
                        t2,
                    )
                &&& final(self)@.len() == old(self)@.len() + if scratch_contains(
                    old(self)@,
                    tid,
                ) {
                    0int
                } else {
                    1int
                }
            },
            !old(self).accepts(tid) ==> r == Err::<(), i64>(-1i64) && final(self)@ == old(self)@,
    {
        let ghost s0 = self@;
        let n = self.entries.len();
        let mut i: usize = 0;
        while i < n
            invariant
                self@ == s0,
                s0 == old(self)@,
                self.cap() == old(self).cap(),
                old(self).wf(),
                scratch_keys_unique(s0),
                n == s0.len(),
                i <= n,
                forall|j: int| 0 <= j < i ==> s0[j].0 != tid,
            decreases n - i,
        {
            let (k, _) = self.entries[i];
            if k == tid {
                self.entries.set(i, (tid, value));
                proof {
                    assert(forall|j: int| 0 <= j < self@.len() ==> self@[j].0 == s0[j].0);
                    assert(scratch_keys_unique(self@));
                    lemma_scratch_lookup_after_point_change(s0, self@, i as int, tid);
                    assert(scratch_contains(s0, tid));
                }
                return Ok(());
            }
            i += 1;
        }
        proof {
            assert(!scratch_contains(s0, tid));
        }
        if self.entries.len() < self.capacity {
            proof {
                lemma_scratch_lookup_after_push(s0, tid, value);
            }
            self.entries.push((tid, value));
            proof {
                assert(self@ =~= s0.push((tid, value)));
            }
            Ok(())
        } else {
            Err(-1)
        }
    }

    /// Remove the record stored under `tid`, if any: every other
    /// thread's record is untouched. After the call no record for `tid`
    /// remains, whether or not one existed.
    pub fn remove(&mut self, tid: u64)
        requires
            old(self).wf(),
        ensures
            final(self).wf(),
            final(self).cap() == old(self).cap(),
            scratch_lookup(final(self)@, tid) is None,
            forall|t2: u64|
                t2 != tid ==> #[trigger] scratch_lookup(final(self)@, t2) == scratch_lookup(
                    old(self)@,
                    t2,
                ),
            final(self)@.len() == old(self)@.len() - if scratch_contains(old(self)@, tid) {
                1int
            } else {
                0int
            },
    {
        let ghost s0 = self@;
        let n = self.entries.len();
        let mut i: usize = 0;
        while i < n
            invariant
                self@ == s0,
                s0 == old(self)@,
                self.cap() == old(self).cap(),
                old(self).wf(),
                scratch_keys_unique(s0),
                n == s0.len(),
                i <= n,
                forall|j: int| 0 <= j < i ==> s0[j].0 != tid,
            decreases n - i,
        {
            let (k, _) = self.entries[i];
            if k == tid {
                self.entries.remove(i);
                proof {
                    assert(self@ =~= s0.take(i as int) + s0.skip(i as int + 1));
                    lemma_scratch_lookup_after_removal(s0, self@, i as int, tid);
                }
                return;
            }
            i += 1;
        }
        proof {
            assert(!scratch_contains(s0, tid));
        }
    }
}

/// After replacing only the record at `i`, which was and stays keyed by
/// `tid`, in a unique-keyed sequence, lookups for all other thread ids
/// are unchanged.
proof fn lemma_scratch_lookup_after_point_change<V>(
    s0: Seq<(u64, V)>,
    s1: Seq<(u64, V)>,
    i: int,
    tid: u64,
)
    requires
        s0.len() == s1.len(),
        0 <= i < s1.len(),
        s0[i].0 == tid,
        s1[i].0 == tid,
        scratch_keys_unique(s1),
        forall|j: int| 0 <= j < s0.len() && j != i ==> s0[j] == s1[j],
    ensures
        scratch_lookup(s1, tid) == Some(s1[i].1),
        forall|t2: u64|
            t2 != tid ==> #[trigger] scratch_lookup(s1, t2) == scratch_lookup(s0, t2),
{
    assert(scratch_contains(s1, tid));
    let w = scratch_index_of(s1, tid);
    assert(0 <= w < s1.len() && s1[w].0 == tid);
    assert(w == i);
    assert forall|t2: u64|
        t2 != tid implies #[trigger] scratch_lookup(s1, t2) == scratch_lookup(s0, t2) by {
        if scratch_contains(s0, t2) {
            let w0 = scratch_index_of(s0, t2);
            assert(0 <= w0 < s0.len() && s0[w0].0 == t2);
            assert(w0 != i);
            assert(s1[w0].0 == t2);
            assert(scratch_contains(s1, t2));
            let w1 = scratch_index_of(s1, t2);
            assert(0 <= w1 < s1.len() && s1[w1].0 == t2);
            assert(w1 == w0);
            assert(s0[w0] == s1[w1]);
        } else {
            if scratch_contains(s1, t2) {
                let w1 = scratch_index_of(s1, t2);
                assert(0 <= w1 < s1.len() && s1[w1].0 == t2);
                assert(w1 != i);
                assert(s0[w1].0 == t2);
            }
        }
    }
}

/// Appending a record under a fresh thread id leaves every other
/// thread's lookup unchanged.
proof fn lemma_scratch_lookup_after_push<V>(s0: Seq<(u64, V)>, tid: u64, value: V)
    requires
        scratch_keys_unique(s0),
        !scratch_contains(s0, tid),
    ensures
        scratch_keys_unique(s0.push((tid, value))),
        scratch_lookup(s0.push((tid, value)), tid) == Some(value),
        forall|t2: u64|
            t2 != tid ==> #[trigger] scratch_lookup(s0.push((tid, value)), t2) == scratch_lookup(
                s0,
                t2,
            ),
{
    let s1 = s0.push((tid, value));
    assert(s1[s0.len() as int] == (tid, value));
    assert(forall|j: int| 0 <= j < s0.len() ==> s1[j] == s0[j]);
    assert(scratch_keys_unique(s1));
    assert(scratch_contains(s1, tid));
    let w = scratch_index_of(s1, tid);
    assert(0 <= w < s1.len() && s1[w].0 == tid);
    assert(w == s0.len() as int);
    assert forall|t2: u64|
        t2 != tid implies #[trigger] scratch_lookup(s1, t2) == scratch_lookup(s0, t2) by {
        if scratch_contains(s0, t2) {
            let w0 = scratch_index_of(s0, t2);
            assert(0 <= w0 < s0.len() && s0[w0].0 == t2);
            assert(s1[w0].0 == t2);
            assert(scratch_contains(s1, t2));
            let w1 = scratch_index_of(s1, t2);
            assert(0 <= w1 < s1.len() && s1[w1].0 == t2);
            assert(w1 == w0);
        } else {
            if scratch_contains(s1, t2) {
                let w1 = scratch_index_of(s1, t2);
                assert(0 <= w1 < s1.len() && s1[w1].0 == t2);
                assert(w1 != s0.len());
                assert(s0[w1].0 == t2);
            }
        }
    }
}

/// After removing the record at `i` (keyed by `tid`) from a unique-keyed
/// sequence, `tid` is absent, all other lookups are unchanged, and keys
/// stay unique.
proof fn lemma_scratch_lookup_after_removal<V>(
    s0: Seq<(u64, V)>,
    s1: Seq<(u64, V)>,
    i: int,
    tid: u64,
)
    requires
        scratch_keys_unique(s0),
        0 <= i < s0.len(),
        s0[i].0 == tid,
        s1 == s0.remove(i),
    ensures
        scratch_keys_unique(s1),
        scratch_lookup(s1, tid) is None,
        forall|t2: u64|
            t2 != tid ==> #[trigger] scratch_lookup(s1, t2) == scratch_lookup(s0, t2),
{
    assert(s1.len() == s0.len() - 1);
    assert(forall|j: int| 0 <= j < i ==> s1[j] == s0[j]);
    assert(forall|j: int| i <= j < s1.len() ==> s1[j] == s0[j + 1]);
    assert(scratch_keys_unique(s1));
    assert(!scratch_contains(s1, tid)) by {
        if scratch_contains(s1, tid) {
            let w = scratch_index_of(s1, tid);
            assert(0 <= w < s1.len() && s1[w].0 == tid);
            if w < i {
                assert(s0[w].0 == tid);
            } else {
                assert(s0[w + 1].0 == tid);
            }
        }
    }
    assert forall|t2: u64|
        t2 != tid implies #[trigger] scratch_lookup(s1, t2) == scratch_lookup(s0, t2) by {
        if scratch_contains(s0, t2) {
            let w0 = scratch_index_of(s0, t2);
            assert(0 <= w0 < s0.len() && s0[w0].0 == t2);
            assert(w0 != i);
            let w1: int = if w0 < i { w0 } else { w0 - 1 };
            assert(s1[w1] == s0[w0]);
            assert(scratch_contains(s1, t2));
            let wa = scratch_index_of(s1, t2);
            assert(0 <= wa < s1.len() && s1[wa].0 == t2);
            assert(wa == w1);
        } else {
            if scratch_contains(s1, t2) {
                let wa = scratch_index_of(s1, t2);
                assert(0 <= wa < s1.len() && s1[wa].0 == t2);
                if wa < i {
                    assert(s0[wa].0 == t2);
                } else {
                    assert(s0[wa + 1].0 == t2);
                }
            }
        }
    }
}


/// The per-thread scratch state of the correlation protocol: one table
/// per syscall family (write/send and recvmsg), plus the secondary table
/// of possible implicit connects observed on recvmsg entry.
pub struct TracerMaps {
    active_write_map: ScratchTable<DataArgs>,
    active_read_map: ScratchTable<DataArgs>,
    active_connect_map: ScratchTable<ConnectArgs>,
}

impl TracerMaps {
    /// The write/send family's scratch records.
    pub closed spec fn write_view(&self) -> Seq<(u64, DataArgs)> {
        self.active_write_map@
    }

    /// The recvmsg family's scratch records.
    pub closed spec fn read_view(&self) -> Seq<(u64, DataArgs)> {
        self.active_read_map@
    }

    /// The pending implicit-connect records.
    pub closed spec fn connect_view(&self) -> Seq<(u64, ConnectArgs)> {
        self.active_connect_map@
    }

    /// Whether the write/send table accepts an insert for `tid`.
    pub closed spec fn write_accepts(&self, tid: u64) -> bool {
        self.active_write_map.accepts(tid)
    }

    /// Whether the recvmsg table accepts an insert for `tid`.
    pub closed spec fn read_accepts(&self, tid: u64) -> bool {
        self.active_read_map.accepts(tid)
    }

    /// Whether the implicit-connect table accepts an insert for `tid`.
    pub closed spec fn connect_accepts(&self, tid: u64) -> bool {
        self.active_connect_map.accepts(tid)
    }

    /// Well-formed: each scratch table is keyed uniquely by thread id —
    /// at most one record per thread and family — and within capacity.
    pub closed spec fn wf(&self) -> bool {
        &&& self.active_write_map.wf()
        &&& self.active_read_map.wf()
        &&& self.active_connect_map.wf()
    }

    /// Fresh, empty scratch tables, each of the given fixed capacity.
    pub fn new(capacity: usize) -> (r: TracerMaps)
        ensures
            r.wf(),
            r.write_view() == Seq::<(u64, DataArgs)>::empty(),
            r.read_view() == Seq::<(u64, DataArgs)>::empty(),
            r.connect_view() == Seq::<(u64, ConnectArgs)>::empty(),
    {
        TracerMaps {
            active_write_map: ScratchTable::new(capacity),
            active_read_map: ScratchTable::new(capacity),
            active_connect_map: ScratchTable::new(capacity),
        }
    }
}

/// The scratch record a send entry captures.
pub open spec fn send_args_spec(fd: i32, buf: u64) -> DataArgs {
    DataArgs {
        source_function: SourceFunction::SyscallSend,
        sock_event: false,
        fd,
        buf,
        iov: 0,
        iovlen: 0,
        msg_len: 0,
    }
}

/// The scratch record a recvmsg entry captures out of the message
/// header: a scatter/gather vector instead of a single buffer.
pub open spec fn recvmsg_args_spec(fd: i32, h: MsgHdr) -> DataArgs {
    DataArgs {
        source_function: SourceFunction::SyscallRecvMsg,
        sock_event: false,
        fd,
        buf: 0,
        iov: h.msg_iov,
        iovlen: h.msg_iovlen,
        msg_len: 0,
    }
}

/// The send/write entry probe: record the syscall's file descriptor and
/// buffer under the invoking thread's id, replacing any stale record.
/// A full table rejects the record; the sample is then lost, by design.
pub fn try_entry_send(maps: &mut TracerMaps, tid: u64, fd: i32, buf: u64) -> (r: Result<u32, i64>)
    requires
        old(maps).wf(),
    ensures
        final(maps).wf(),
        final(maps).read_view() == old(maps).read_view(),
        final(maps).connect_view() == old(maps).connect_view(),
        old(maps).write_accepts(tid) ==> {
            &&& r == Ok::<u32, i64>(0u32)
            &&& scratch_lookup(final(maps).write_view(), tid) == Some(send_args_spec(fd, buf))
            &&& forall|t2: u64|
                t2 != tid ==> #[trigger] scratch_lookup(final(maps).write_view(), t2)
                    == scratch_lookup(old(maps).write_view(), t2)
        },
        !old(maps).write_accepts(tid) ==> r == Err::<u32, i64>(-1i64) && final(maps).write_view()
            == old(maps).write_view(),
{
    let data_args = DataArgs {
        source_function: SourceFunction::SyscallSend,
        sock_event: false,
        fd,
        buf,
        iov: 0,
        iovlen: 0,
        msg_len: 0,
    };
    match maps.active_write_map.insert(tid, data_args) {
        Ok(_) => Ok(0),
        Err(e) => Err(e),
    }
}

/// The send/write return probe: pair the thread's scratch record with
/// the returned byte count into one egress traffic sample, and remove
/// the record. A return with no matching record is dropped silently;
/// either way no record for the thread remains.
pub fn try_ret_send(maps: &mut TracerMaps, tid: u64, bytes_count: i64) -> (r: Result<
    TrafficSample,
    i64,
>)
    requires
        old(maps).wf(),
    ensures
        final(maps).wf(),
        final(maps).read_view() == old(maps).read_view(),
        final(maps).connect_view() == old(maps).connect_view(),
        scratch_lookup(final(maps).write_view(), tid) is None,
        scratch_lookup(old(maps).write_view(), tid) is None ==> r == Err::<TrafficSample, i64>(
            1i64,
        ) && final(maps).write_view() == old(maps).write_view(),
        scratch_lookup(old(maps).write_view(), tid) is Some ==> {
            &&& r == Ok::<TrafficSample, i64>(
                (TrafficSample {
                    tid,
                    direction: TrafficDirection::Egress,
                    args: scratch_lookup(old(maps).write_view(), tid)->Some_0,
                    bytes_count,
                }),
            )
            &&& forall|t2: u64|
                t2 != tid ==> #[trigger] scratch_lookup(final(maps).write_view(), t2)
                    == scratch_lookup(old(maps).write_view(), t2)
        },
{
    let args = match maps.active_write_map.lookup(tid) {
        Some(a) => a,
        None => {
            return Err(1);
        },
    };
    let sample = TrafficSample { tid, direction: TrafficDirection::Egress, args, bytes_count };
    maps.active_write_map.remove(tid);
    Ok(sample)
}

/// The recvmsg entry probe. A null message header is ignored. Otherwise:
/// if the header names a destination address, the destination may not be
/// known from a prior connect, so a secondary implicit-connect record is
/// stored (its insert failure is ignored); then the scatter/gather
/// buffer descriptors are recorded for the return probe. A full table
/// rejects the record; the sample is then lost, by design.
pub fn try_entry_recvmsg(maps: &mut TracerMaps, tid: u64, fd: i32, msghdr: Option<MsgHdr>) -> (r:
    Result<u32, i64>)
    requires
        old(maps).wf(),
    ensures
        final(maps).wf(),
        final(maps).write_view() == old(maps).write_view(),
        msghdr is None ==> r == Ok::<u32, i64>(0u32) && final(maps).read_view() == old(maps).read_view() && final(maps).connect_view() == old(maps).connect_view(),
        msghdr matches Some(h) ==> {
            &&& if h.msg_name != 0 && old(maps).connect_accepts(tid) {
                &&& scratch_lookup(final(maps).connect_view(), tid) == Some(
                    (ConnectArgs { sockaddr: h.msg_name, fd }),
                )
                &&& forall|t2: u64|
                    t2 != tid ==> #[trigger] scratch_lookup(final(maps).connect_view(), t2)
                        == scratch_lookup(old(maps).connect_view(), t2)
            } else {
                final(maps).connect_view() == old(maps).connect_view()
            }
            &&& if old(maps).read_accepts(tid) {
                &&& r == Ok::<u32, i64>(0u32)
                &&& scratch_lookup(final(maps).read_view(), tid) == Some(recvmsg_args_spec(fd, h))
                &&& forall|t2: u64|
                    t2 != tid ==> #[trigger] scratch_lookup(final(maps).read_view(), t2)
                        == scratch_lookup(old(maps).read_view(), t2)
            } else {
                r == Err::<u32, i64>(-1i64) && final(maps).read_view() == old(maps).read_view()
            }
        },
{
    let h = match msghdr {
        Some(h) => h,
        None => {
            return Ok(0);
        },
    };
    if h.msg_name != 0 {
        let connect_args = ConnectArgs { sockaddr: h.msg_name, fd };
        let _ = maps.active_connect_map.insert(tid, connect_args);
    }
    let data_args = DataArgs {
        source_function: SourceFunction::SyscallRecvMsg,
        sock_event: false,
        fd,
        buf: 0,
        iov: h.msg_iov,
        iovlen: h.msg_iovlen,
        msg_len: 0,
    };
    match maps.active_read_map.insert(tid, data_args) {
        Ok(_) => Ok(0),
        Err(e) => Err(e),
    }
}

/// The recvmsg return probe: drop any pending implicit-connect record
/// for the thread (resolving it end-to-end is an acknowledged
/// incompleteness), then pair the thread's scratch record with the
/// returned byte count into one ingress traffic sample and remove it. A
/// return with no matching record is dropped silently; either way no
/// record for the thread remains in either table.
pub fn try_ret_recvmsg(maps: &mut TracerMaps, tid: u64, bytes_count: i64) -> (r: Result<
    TrafficSample,
    i64,
>)
    requires
        old(maps).wf(),
    ensures
        final(maps).wf(),
        final(maps).write_view() == old(maps).write_view(),
        scratch_lookup(final(maps).connect_view(), tid) is None,
        forall|t2: u64|
            t2 != tid ==> #[trigger] scratch_lookup(final(maps).connect_view(), t2)
                == scratch_lookup(old(maps).connect_view(), t2),
        scratch_lookup(final(maps).read_view(), tid) is None,
        scratch_lookup(old(maps).read_view(), tid) is None ==> r == Err::<TrafficSample, i64>(
            1i64,
        ) && final(maps).read_view() == old(maps).read_view(),
        scratch_lookup(old(maps).read_view(), tid) is Some ==> {
            &&& r == Ok::<TrafficSample, i64>(
                (TrafficSample {
                    tid,
                    direction: TrafficDirection::Ingress,
                    args: scratch_lookup(old(maps).read_view(), tid)->Some_0,
                    bytes_count,
                }),
            )
            &&& forall|t2: u64|
                t2 != tid ==> #[trigger] scratch_lookup(final(maps).read_view(), t2)
                    == scratch_lookup(old(maps).read_view(), t2)
        },
{
    let connect_args = maps.active_connect_map.lookup(tid);
    if connect_args.is_some() {
        maps.active_connect_map.remove(tid);
    }
    let args = match maps.active_read_map.lookup(tid) {
        Some(a) => a,
        None => {
            return Err(1);
        },
    };
    let sample = TrafficSample { tid, direction: TrafficDirection::Ingress, args, bytes_count };
    maps.active_read_map.remove(tid);
    Ok(sample)
}

/// The probe return code for a correlation outcome: the success code, or
/// the error folded into the unsigned range (codes outside it, such as a
/// negative insert failure, become 1).
pub open spec fn ret_code_spec(e: i64) -> u32 {
    if 0 <= e <= u32::MAX {
        e as u32
    } else {
        1u32
    }
}

/// Fold an error code into the probe's unsigned return range.
fn ret_code(e: i64) -> (r: u32)
    ensures
        r == ret_code_spec(e),
{
    if e >= 0 && e <= u32::MAX as i64 {
        e as u32
    } else {
        1
    }
}

/// The send/write entry probe, with its outcome folded into the probe's
/// unsigned return convention: 0 on success, 1 when the record was lost.
pub fn entry_send(maps: &mut TracerMaps, tid: u64, fd: i32, buf: u64) -> (r: u32)
    requires
        old(maps).wf(),
    ensures
        final(maps).wf(),
        final(maps).read_view() == old(maps).read_view(),
        final(maps).connect_view() == old(maps).connect_view(),
        old(maps).write_accepts(tid) ==> {
            &&& r == 0u32
            &&& scratch_lookup(final(maps).write_view(), tid) == Some(send_args_spec(fd, buf))
            &&& forall|t2: u64|
                t2 != tid ==> #[trigger] scratch_lookup(final(maps).write_view(), t2)
                    == scratch_lookup(old(maps).write_view(), t2)
        },
        !old(maps).write_accepts(tid) ==> r == 1u32 && final(maps).write_view() == old(maps).write_view(),
{
    match try_entry_send(maps, tid, fd, buf) {
        Ok(code) => code,
        Err(e) => ret_code(e),
    }
}

/// The send/write return probe, with its outcome folded into the probe's
/// unsigned return convention; the paired egress sample, destined for
/// the byte-accounting routine, is handed back beside the code.
pub fn ret_send(maps: &mut TracerMaps, tid: u64, bytes_count: i64) -> (r: (
    u32,
    Option<TrafficSample>,
))
    requires
        old(maps).wf(),
    ensures
        final(maps).wf(),
        final(maps).read_view() == old(maps).read_view(),
        final(maps).connect_view() == old(maps).connect_view(),
        scratch_lookup(final(maps).write_view(), tid) is None,
        scratch_lookup(old(maps).write_view(), tid) is None ==> r == (
            1u32,
            Option::<TrafficSample>::None,
        ) && final(maps).write_view() == old(maps).write_view(),
        scratch_lookup(old(maps).write_view(), tid) is Some ==> {
            &&& r == (
                0u32,
                Some(
                    (TrafficSample {
                        tid,
                        direction: TrafficDirection::Egress,
                        args: scratch_lookup(old(maps).write_view(), tid)->Some_0,
                        bytes_count,
                    }),
                ),
            )
            &&& forall|t2: u64|
                t2 != tid ==> #[trigger] scratch_lookup(final(maps).write_view(), t2)
                    == scratch_lookup(old(maps).write_view(), t2)
        },
{
    match try_ret_send(maps, tid, bytes_count) {
        Ok(sample) => (0, Some(sample)),
        Err(e) => (ret_code(e), None),
    }
}

/// The recvmsg entry probe, with its outcome folded into the probe's
/// unsigned return convention: 0 on success or a null header, 1 when
/// the record was lost.
pub fn entry_recvmsg(maps: &mut TracerMaps, tid: u64, fd: i32, msghdr: Option<MsgHdr>) -> (r: u32)
    requires
        old(maps).wf(),
    ensures
        final(maps).wf(),
        final(maps).write_view() == old(maps).write_view(),
        msghdr is None ==> r == 0u32 && final(maps).read_view() == old(maps).read_view() && final(maps).connect_view() == old(maps).connect_view(),
        msghdr matches Some(h) ==> {
            &&& if h.msg_name != 0 && old(maps).connect_accepts(tid) {
                &&& scratch_lookup(final(maps).connect_view(), tid) == Some(
                    (ConnectArgs { sockaddr: h.msg_name, fd }),
                )
                &&& forall|t2: u64|
                    t2 != tid ==> #[trigger] scratch_lookup(final(maps).connect_view(), t2)
                        == scratch_lookup(old(maps).connect_view(), t2)
            } else {
                final(maps).connect_view() == old(maps).connect_view()
            }
            &&& if old(maps).read_accepts(tid) {
                &&& r == 0u32
                &&& scratch_lookup(final(maps).read_view(), tid) == Some(recvmsg_args_spec(fd, h))
                &&& forall|t2: u64|
                    t2 != tid ==> #[trigger] scratch_lookup(final(maps).read_view(), t2)
                        == scratch_lookup(old(maps).read_view(), t2)
            } else {
                r == 1u32 && final(maps).read_view() == old(maps).read_view()
            }
        },
{
    match try_entry_recvmsg(maps, tid, fd, msghdr) {
        Ok(code) => code,
        Err(e) => ret_code(e),
    }
}

/// The recvmsg return probe, with its outcome folded into the probe's
/// unsigned return convention; the paired ingress sample, destined for
/// the byte-accounting routine, is handed back beside the code.
pub fn ret_recvmsg(maps: &mut TracerMaps, tid: u64, bytes_count: i64) -> (r: (
    u32,
    Option<TrafficSample>,
))
    requires
        old(maps).wf(),
    ensures
        final(maps).wf(),
        final(maps).write_view() == old(maps).write_view(),
        scratch_lookup(final(maps).connect_view(), tid) is None,
        scratch_lookup(final(maps).read_view(), tid) is None,
        scratch_lookup(old(maps).read_view(), tid) is None ==> r == (
            1u32,
            Option::<TrafficSample>::None,
        ) && final(maps).read_view() == old(maps).read_view(),
        scratch_lookup(old(maps).read_view(), tid) is Some ==> r == (
            0u32,
            Some(
                (TrafficSample {
                    tid,
                    direction: TrafficDirection::Ingress,
                    args: scratch_lookup(old(maps).read_view(), tid)->Some_0,
                    bytes_count,
                }),
            ),
        ),
{
    match try_ret_recvmsg(maps, tid, bytes_count) {
        Ok(sample) => (0, Some(sample)),
        Err(e) => (ret_code(e), None),
    }
}

} // verus!

