//! Per-process data: lifecycle events, cache refreshes, per-process
//! descriptor lists and process names.

use crate::bytes::{le_u32, read_u32};
use crate::display::{bytes_to_str, field_text};
use crate::types::{FdInfo, ProcStats};
use std::collections::HashMap;
use vstd::prelude::*;
use vstd::std_specs::hash::group_hash_axioms;

verus! {

/// The kind of a lifecycle event that means the process exited.
pub const EVENT_EXIT: u32 = 2;

/// The PID of event record `i` (records are eight bytes: PID, then kind).
pub open spec fn event_pid(b: Seq<u8>, i: int) -> u32 {
    le_u32(b, 8 * i) as u32
}

/// The kind of event record `i`: 0 new, 1 exec, 2 exit.
pub open spec fn event_kind(b: Seq<u8>, i: int) -> int {
    le_u32(b, 8 * i + 4)
}

/// The PIDs of the first `k` records that are not exits, in order.
pub open spec fn changed_pids(b: Seq<u8>, k: nat) -> Seq<u32>
    decreases k,
{
    if k == 0 {
        seq![]
    } else if event_kind(b, k - 1) != EVENT_EXIT {
        changed_pids(b, (k - 1) as nat).push(event_pid(b, k - 1))
    } else {
        changed_pids(b, (k - 1) as nat)
    }
}

/// The PIDs of the first `k` records that are exits, in order.
pub open spec fn exited_pids(b: Seq<u8>, k: nat) -> Seq<u32>
    decreases k,
{
    if k == 0 {
        seq![]
    } else if event_kind(b, k - 1) == EVENT_EXIT {
        exited_pids(b, (k - 1) as nat).push(event_pid(b, k - 1))
    } else {
        exited_pids(b, (k - 1) as nat)
    }
}

/// Every event record lands in exactly one of the two lists: the changed
/// and the exited PIDs of the first `k` records number `k` together.
pub proof fn law_events_partition(b: Seq<u8>, k: nat)
    ensures
        changed_pids(b, k).len() + exited_pids(b, k).len() == k,
    decreases k,
{
    if k > 0 {
        law_events_partition(b, (k - 1) as nat);
    }
}

/// Sorts the whole records among the first `n` bytes of `buf` into the PIDs
/// that exited and the PIDs that were created or replaced their image.
pub fn collect_events(buf: &[u8], n: usize, changed: &mut Vec<u32>, exited: &mut Vec<u32>)
    requires
        n <= buf@.len(),
    ensures
        final(changed)@ == old(changed)@ + changed_pids(buf@, (n / 8) as nat),
        final(exited)@ == old(exited)@ + exited_pids(buf@, (n / 8) as nat),
{
    let ghost c0 = changed@;
    let ghost e0 = exited@;
    let mut off: usize = 0;
    let mut k: usize = 0;
    assert(c0 + changed_pids(buf@, 0) =~= c0);
    assert(e0 + exited_pids(buf@, 0) =~= e0);
    while n - off >= 8
        invariant
            n <= buf@.len(),
            off == 8 * k,
            off <= n,
            changed@ == c0 + changed_pids(buf@, k as nat),
            exited@ == e0 + exited_pids(buf@, k as nat),
        decreases n - off,
    {
        let pid = read_u32(buf, off);
        let kind = read_u32(buf, off + 4);
        if kind == EVENT_EXIT {
            exited.push(pid);
            assert(exited@ =~= e0 + exited_pids(buf@, (k + 1) as nat));
            assert(changed@ =~= c0 + changed_pids(buf@, (k + 1) as nat));
        } else {
            changed.push(pid);
            assert(exited@ =~= e0 + exited_pids(buf@, (k + 1) as nat));
            assert(changed@ =~= c0 + changed_pids(buf@, (k + 1) as nat));
        }
        off = off + 8;
        k = k + 1;
    }
    assert(k == n / 8);
}

/// The number of lookups that found their process.
pub open spec fn found_count(found: Seq<Option<ProcStats>>) -> nat
    decreases found.len(),
{
    if found.len() == 0 {
        0
    } else {
        found_count(found.drop_last()) + if found.last() is Some {
            1nat
        } else {
            0nat
        }
    }
}

/// The cache after storing, in order, each found process under its PID.
pub open spec fn refreshed(
    cache: Map<u32, ProcStats>,
    pids: Seq<u32>,
    found: Seq<Option<ProcStats>>,
) -> Map<u32, ProcStats>
    decreases pids.len(),
{
    if pids.len() == 0 || found.len() == 0 {
        cache
    } else {
        let before = refreshed(cache, pids.drop_last(), found.drop_last());
        match found.last() {
            Some(s) => before.insert(pids.last(), s),
            None => before,
        }
    }
}

/// Stores the lookup result of each PID in the cache when the process was
/// found; returns how many were found.
pub fn refresh_pids_from(
    pids: &[u32],
    found: &[Option<ProcStats>],
    cache: &mut HashMap<u32, ProcStats>,
) -> (r: usize)
    requires
        pids@.len() == found@.len(),
    ensures
        r == found_count(found@),
        final(cache)@ == refreshed(old(cache)@, pids@, found@),
{
    broadcast use group_hash_axioms;

    let ghost c0 = cache@;
    let mut count: usize = 0;
    let mut i: usize = 0;
    assert(pids@.take(0) =~= Seq::<u32>::empty());
    assert(found@.take(0) =~= Seq::<Option<ProcStats>>::empty());
    while i < pids.len()
        invariant
            pids@.len() == found@.len(),
            i <= pids@.len(),
            count == found_count(found@.take(i as int)),
            count <= i,
            cache@ == refreshed(c0, pids@.take(i as int), found@.take(i as int)),
        decreases pids@.len() - i,
    {
        assert(pids@.take(i + 1).drop_last() =~= pids@.take(i as int));
        assert(found@.take(i + 1).drop_last() =~= found@.take(i as int));
        match found[i] {
            Some(s) => {
                cache.insert(pids[i], s);
                count = count + 1;
            },
            None => {},
        }
        i = i + 1;
    }
    assert(pids@.take(i as int) =~= pids@);
    assert(found@.take(i as int) =~= found@);
    count
}

/// Keeps the descriptors that belong to process `pid`, in order.
pub fn fds_of_pid(all: Vec<FdInfo>, pid: u32) -> (r: Vec<FdInfo>)
    ensures
        r@ == all@.filter(|f: FdInfo| f.pid == pid),
{
    let mut r: Vec<FdInfo> = Vec::new();
    let mut i: usize = 0;
    assert(all@.take(0) =~= Seq::<FdInfo>::empty());
    while i < all.len()
        invariant
            i <= all@.len(),
            r@ == all@.take(i as int).filter(|f: FdInfo| f.pid == pid),
        decreases all@.len() - i,
    {
        let f = all[i];
        assert(all@.take(i + 1).drop_last() =~= all@.take(i as int));
        proof {
            reveal_with_fuel(Seq::<FdInfo>::filter, 1);
        }
        if f.pid == pid {
            r.push(f);
        }
        i = i + 1;
    }
    assert(all@.take(i as int) =~= all@);
    r
}

/// The command name of process `pid` in `procs`, or "?" when it is not there.
pub open spec fn comm_text(procs: Map<u32, ProcStats>, pid: u32) -> Seq<char> {
    if procs.contains_key(pid) {
        field_text(procs[pid].comm@)
    } else {
        seq!['?']
    }
}

/// The command name of process `pid`.
pub fn proc_comm(procs: &HashMap<u32, ProcStats>, pid: u32) -> (r: &str)
    ensures
        r@ == comm_text(procs@, pid),
{
    broadcast use group_hash_axioms;

    match procs.get(&pid) {
        Some(p) => bytes_to_str(p.comm.as_slice()),
        None => {
            proof {
                reveal_strlit("?");
            }
            "?"
        },
    }
}

} // verus!
