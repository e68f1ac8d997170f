//! The cgroup table: the path of each cgroup from the names and parents of
//! the cgroups, the order of the rows, the summary and the pressure ranking.

use std::collections::HashMap;
use vstd::prelude::*;
use vstd::std_specs::hash::group_hash_axioms;
use crate::display::{decimal, push_decimal};
use crate::order::{is_listing, listing};
use vstd::string::{StrSliceExecFns, StringExecFns, StringSliceAdditionalSpecFns};
use vstd::utf8::is_char_boundary;

verus! {

/// How many levels of ancestry a path shows at most.
pub const MAX_PATH_DEPTH: usize = 10;

/// The names met when walking from `cur` towards the root: a cgroup that is
/// not known or has an empty name ends the walk, as does a parent of 0 or a
/// cgroup that is its own parent; at most `fuel` names.
pub open spec fn path_parts(
    names: Map<u64, String>,
    parents: Map<u64, u64>,
    cur: u64,
    fuel: nat,
) -> Seq<Seq<char>>
    decreases fuel,
{
    if fuel == 0 || !names.contains_key(cur) || names[cur]@.len() == 0 {
        seq![]
    } else if parents.contains_key(cur) && parents[cur] != 0 && parents[cur] != cur {
        seq![names[cur]@] + path_parts(names, parents, parents[cur], (fuel - 1) as nat)
    } else {
        seq![names[cur]@]
    }
}

/// Each name preceded by `/`, in order.
pub open spec fn slash_joined(parts: Seq<Seq<char>>) -> Seq<char>
    decreases parts.len(),
{
    if parts.len() == 0 {
        seq![]
    } else {
        slash_joined(parts.drop_last()) + "/"@ + parts.last()
    }
}

/// The path of cgroup `id`: its ancestors' names from the root down, each
/// after a `/`; `/` alone when the walk finds no name.
pub open spec fn cgroup_path_text(names: Map<u64, String>, parents: Map<u64, u64>, id: u64) -> Seq<
    char,
> {
    let parts = path_parts(names, parents, id, MAX_PATH_DEPTH as nat);
    if parts.len() == 0 {
        "/"@
    } else {
        slash_joined(parts.reverse())
    }
}

/// The path of cgroup `id`, given each cgroup's name and parent.
pub fn cgroup_path(names: &HashMap<u64, String>, parents: &HashMap<u64, u64>, id: u64) -> (r:
    String)
    ensures
        r@ == cgroup_path_text(names@, parents@, id),
{
    broadcast use group_hash_axioms;

    let ghost whole = path_parts(names@, parents@, id, MAX_PATH_DEPTH as nat);
    let mut parts: Vec<String> = Vec::new();
    let mut cur = id;
    let mut k: usize = 0;
    let mut done = false;
    assert(parts@.map_values(|s: String| s@) + whole =~= whole);
    while k < MAX_PATH_DEPTH && !done
        invariant
            k <= MAX_PATH_DEPTH,
            whole == path_parts(names@, parents@, id, MAX_PATH_DEPTH as nat),
            whole == parts@.map_values(|s: String| s@) + (if done {
                seq![]
            } else {
                path_parts(names@, parents@, cur, (MAX_PATH_DEPTH - k) as nat)
            }),
        decreases MAX_PATH_DEPTH - k,
    {
        let ghost before = parts@.map_values(|s: String| s@);
        let ghost fuel = (MAX_PATH_DEPTH - k) as nat;
        match names.get(&cur) {
            Some(name) => {
                if name.as_str().is_empty() {
                    done = true;
                    assert(before + Seq::<Seq<char>>::empty() =~= before);
                } else {
                    parts.push(name.clone());
                    assert(parts@.map_values(|s: String| s@) =~= before.push(name@));
                    match parents.get(&cur) {
                        Some(p) => {
                            if *p == 0 || *p == cur {
                                done = true;
                                assert(before + seq![name@] =~= before.push(name@) + Seq::<
                                    Seq<char>,
                                >::empty());
                            } else {
                                cur = *p;
                                assert(before + (seq![name@] + path_parts(
                                    names@,
                                    parents@,
                                    cur,
                                    (fuel - 1) as nat,
                                )) =~= before.push(name@) + path_parts(
                                    names@,
                                    parents@,
                                    cur,
                                    (fuel - 1) as nat,
                                ));
                            }
                        },
                        None => {
                            done = true;
                            assert(before + seq![name@] =~= before.push(name@) + Seq::<
                                Seq<char>,
                            >::empty());
                        },
                    }
                }
            },
            None => {
                done = true;
                assert(before + Seq::<Seq<char>>::empty() =~= before);
            },
        }
        k = k + 1;
    }
    if !done {
        assert(path_parts(names@, parents@, cur, 0) =~= Seq::<Seq<char>>::empty());
    }
    assert(whole =~= parts@.map_values(|s: String| s@));
    let n = parts.len();
    if n == 0 {
        let slash = "/";
        return String::from_str(slash);
    }
    let mut r = String::new();
    let mut j: usize = 0;
    assert(whole.reverse().take(0) =~= Seq::<Seq<char>>::empty());
    while j < n
        invariant
            n == parts@.len(),
            n == whole.len(),
            whole == parts@.map_values(|s: String| s@),
            j <= n,
            r@ == slash_joined(whole.reverse().take(j as int)),
        decreases n - j,
    {
        let part = &parts[n - 1 - j];
        assert(whole.reverse()[j as int] == part@);
        assert(whole.reverse().take(j + 1).drop_last() =~= whole.reverse().take(j as int));
        r.append("/");
        r.append(part.as_str());
        j = j + 1;
    }
    assert(whole.reverse().take(n as int) =~= whole.reverse());
    r
}

/// What the cgroup table shows of one cgroup.
#[derive(Clone, Copy, Debug)]
pub struct CgroupStats {
    pub id: u64,
    pub parent_id: u64,
    pub memory_current: u64,
    pub memory_limit: u64,
    pub cpu_quota_us: u64,
    pub nr_throttled: u64,
    pub frozen: u64,
    pub psi_cpu_some: u64,
    pub psi_mem_some: u64,
    pub psi_io_some: u64,
}

/// The rows of the cgroup table: most memory in use first, ties in their
/// original order.
pub fn cgroup_rows(all: &[CgroupStats]) -> (r: Vec<usize>)
    ensures
        is_listing(
            r@,
            all@.map_values(|c: CgroupStats| true),
            all@.map_values(|c: CgroupStats| (u64::MAX - c.memory_current) as u64),
        ),
{
    let mut keep: Vec<bool> = Vec::new();
    let mut keys: Vec<u64> = Vec::new();
    let mut i: usize = 0;
    while i < all.len()
        invariant
            i <= all@.len(),
            keep@ == all@.take(i as int).map_values(|c: CgroupStats| true),
            keys@ == all@.take(i as int).map_values(|c: CgroupStats| (u64::MAX - c.memory_current) as u64),
        decreases all@.len() - i,
    {
        keep.push(true);
        keys.push(u64::MAX - all[i].memory_current);
        i = i + 1;
        assert(keep@ =~= all@.take(i as int).map_values(|c: CgroupStats| true));
        assert(keys@ =~= all@.take(i as int).map_values(
            |c: CgroupStats| (u64::MAX - c.memory_current) as u64,
        ));
    }
    assert(all@.take(i as int) =~= all@);
    listing(keep.as_slice(), keys.as_slice())
}

/// The cgroup reports some pressure.
pub open spec fn has_pressure(c: CgroupStats) -> bool {
    c.psi_cpu_some > 0 || c.psi_mem_some > 0 || c.psi_io_some > 0
}

/// The pressure of a cgroup: its CPU, memory and I/O "some" stall times.
pub open spec fn pressure(c: CgroupStats) -> int {
    c.psi_cpu_some + c.psi_mem_some + c.psi_io_some
}

/// The number of cgroups in `s` for which `f` holds.
pub open spec fn count_where(s: Seq<CgroupStats>, f: spec_fn(CgroupStats) -> bool) -> nat
    decreases s.len(),
{
    if s.len() == 0 {
        0
    } else {
        count_where(s.drop_last(), f) + if f(s.last()) {
            1nat
        } else {
            0nat
        }
    }
}

/// The summary under the cgroup table.
#[derive(Clone, Copy, Debug, PartialEq, Eq, Structural)]
pub struct CgroupSummary {
    pub total: usize,
    pub memory_limited: usize,
    pub cpu_limited: usize,
    pub throttled: usize,
    pub frozen: usize,
    pub any_pressure: bool,
}

/// The summary of the cgroups `all`: how many there are, how many have a
/// memory limit, a CPU quota, been throttled or are frozen, and whether any
/// reports pressure.
pub fn cgroup_summary(all: &[CgroupStats]) -> (r: CgroupSummary)
    ensures
        r.total == all@.len(),
        r.memory_limited == count_where(all@, |c: CgroupStats| c.memory_limit > 0),
        r.cpu_limited == count_where(all@, |c: CgroupStats| c.cpu_quota_us > 0),
        r.throttled == count_where(all@, |c: CgroupStats| c.nr_throttled > 0),
        r.frozen == count_where(all@, |c: CgroupStats| c.frozen > 0),
        r.any_pressure == exists|i: int| 0 <= i < all@.len() && #[trigger] has_pressure(all@[i]),
{
    let mut r = CgroupSummary {
        total: all.len(),
        memory_limited: 0,
        cpu_limited: 0,
        throttled: 0,
        frozen: 0,
        any_pressure: false,
    };
    let mut i: usize = 0;
    assert(all@.take(0) =~= Seq::<CgroupStats>::empty());
    while i < all.len()
        invariant
            i <= all@.len(),
            r.total == all@.len(),
            r.memory_limited == count_where(all@.take(i as int), |c: CgroupStats| c.memory_limit > 0),
            r.cpu_limited == count_where(all@.take(i as int), |c: CgroupStats| c.cpu_quota_us > 0),
            r.throttled == count_where(all@.take(i as int), |c: CgroupStats| c.nr_throttled > 0),
            r.frozen == count_where(all@.take(i as int), |c: CgroupStats| c.frozen > 0),
            r.memory_limited <= i && r.cpu_limited <= i && r.throttled <= i && r.frozen <= i,
            r.any_pressure == exists|j: int| 0 <= j < i && #[trigger] has_pressure(all@[j]),
        decreases all@.len() - i,
    {
        let c = all[i];
        assert(all@.take(i + 1).drop_last() =~= all@.take(i as int));
        assert(all@.take(i + 1).last() == c);
        if c.memory_limit > 0 {
            r.memory_limited = r.memory_limited + 1;
        }
        if c.cpu_quota_us > 0 {
            r.cpu_limited = r.cpu_limited + 1;
        }
        if c.nr_throttled > 0 {
            r.throttled = r.throttled + 1;
        }
        if c.frozen > 0 {
            r.frozen = r.frozen + 1;
        }
        if c.psi_cpu_some > 0 || c.psi_mem_some > 0 || c.psi_io_some > 0 {
            r.any_pressure = true;
            assert(has_pressure(all@[i as int]));
        }
        i = i + 1;
    }
    assert(all@.take(i as int) =~= all@);
    r
}

/// The summary line under the cgroup table, as text.
pub open spec fn summary_text(s: CgroupSummary) -> Seq<char> {
    decimal(s.total as nat) + " cgroups: "@ + decimal(s.memory_limited as nat)
        + " memory-limited, "@ + decimal(s.cpu_limited as nat) + " cpu-limited, "@
        + decimal(s.throttled as nat) + " throttled"@ + if s.frozen > 0 {
        ", "@ + decimal(s.frozen as nat) + " frozen"@
    } else {
        Seq::<char>::empty()
    }
}

/// The summary line under the cgroup table: the counts, with the frozen
/// count appended only when some cgroup is frozen.
pub fn summary_line(s: &CgroupSummary) -> (r: String)
    ensures
        r@ == summary_text(*s),
{
    proof {
        reveal_strlit(" cgroups: ");
        reveal_strlit(" memory-limited, ");
        reveal_strlit(" cpu-limited, ");
        reveal_strlit(" throttled");
        reveal_strlit(", ");
        reveal_strlit(" frozen");
    }
    let mut r = String::new();
    push_decimal(&mut r, s.total as u64);
    r.append(" cgroups: ");
    push_decimal(&mut r, s.memory_limited as u64);
    r.append(" memory-limited, ");
    push_decimal(&mut r, s.cpu_limited as u64);
    r.append(" cpu-limited, ");
    push_decimal(&mut r, s.throttled as u64);
    r.append(" throttled");
    let ghost head = r@;
    if s.frozen > 0 {
        r.append(", ");
        push_decimal(&mut r, s.frozen as u64);
        r.append(" frozen");
        assert(r@ =~= head + (", "@ + decimal(s.frozen as nat) + " frozen"@));
    } else {
        assert(r@ =~= head + Seq::<char>::empty());
    }
    r
}

/// How many cgroups the pressure ranking lists at most.
pub const PRESSURE_ROWS: usize = 5;

/// The pressure ranking: the cgroups that report pressure, most first (ties
/// in their original order), at most five of them.
pub fn top_pressure(all: &[CgroupStats]) -> (r: Vec<usize>)
    requires
        forall|i: int| 0 <= i < all@.len() ==> pressure(#[trigger] all@[i]) <= u64::MAX,
    ensures
        exists|full: Seq<usize>|
            #[trigger] is_listing(full, pressure_flags(all@), pressure_keys(all@)) && r@ == full.take(
                if full.len() < PRESSURE_ROWS {
                    full.len() as int
                } else {
                    PRESSURE_ROWS as int
                },
            ),
{
    let mut keep: Vec<bool> = Vec::new();
    let mut keys: Vec<u64> = Vec::new();
    let mut i: usize = 0;
    while i < all.len()
        invariant
            i <= all@.len(),
            forall|i: int| 0 <= i < all@.len() ==> pressure(#[trigger] all@[i]) <= u64::MAX,
            keep@ == pressure_flags(all@).take(i as int),
            keys@ == pressure_keys(all@).take(i as int),
        decreases all@.len() - i,
    {
        let c = all[i];
        assert(pressure(all@[i as int]) <= u64::MAX);
        let total = c.psi_cpu_some + c.psi_mem_some + c.psi_io_some;
        keep.push(c.psi_cpu_some > 0 || c.psi_mem_some > 0 || c.psi_io_some > 0);
        keys.push(u64::MAX - total);
        i = i + 1;
        assert(keep@ =~= pressure_flags(all@).take(i as int));
        assert(keys@ =~= pressure_keys(all@).take(i as int));
    }
    assert(pressure_flags(all@).take(i as int) =~= pressure_flags(all@));
    assert(pressure_keys(all@).take(i as int) =~= pressure_keys(all@));
    let mut full = listing(keep.as_slice(), keys.as_slice());
    let ghost f = full@;
    if full.len() > PRESSURE_ROWS {
        full.truncate(PRESSURE_ROWS);
    }
    assert(full@ =~= f.take(if f.len() < PRESSURE_ROWS { f.len() as int } else { PRESSURE_ROWS as int }));
    full
}

/// Which cgroups report pressure.
pub open spec fn pressure_flags(all: Seq<CgroupStats>) -> Seq<bool> {
    all.map_values(|c: CgroupStats| has_pressure(c))
}

/// The sort keys of the pressure ranking: most pressure first.
pub open spec fn pressure_keys(all: Seq<CgroupStats>) -> Seq<u64> {
    all.map_values(|c: CgroupStats| (u64::MAX - pressure(c)) as u64)
}

/// How many bytes of a path the cgroup table shows at most.
pub const PATH_WIDTH: usize = 48;

/// The part of a path the cgroup table shows: the last 48 bytes of a longer
/// path, or all of it.
pub fn shown_path(path: &str) -> (r: &str)
    requires
        path.spec_bytes().len() > PATH_WIDTH ==> is_char_boundary(
            path.spec_bytes(),
            path.spec_bytes().len() - PATH_WIDTH,
        ),
    ensures
        r.spec_bytes() == (if path.spec_bytes().len() > PATH_WIDTH {
            path.spec_bytes().skip(path.spec_bytes().len() - PATH_WIDTH)
        } else {
            path.spec_bytes()
        }),
{
    let n = path.as_bytes().len();
    if n > PATH_WIDTH {
        let (_, tail) = path.split_at(n - PATH_WIDTH);
        assert(tail.spec_bytes() =~= path.spec_bytes().skip(path.spec_bytes().len() - PATH_WIDTH));
        tail
    } else {
        path
    }
}

} // verus!
