//! What the command-line tools and the exporter list, and in which order,
//! and the labels they print.

use crate::display::{decimal, format_ipv4, ipv4_text, push_decimal, tcp_state_str, tcp_state_text};
use crate::irq::SOFTIRQ_BASE;
use crate::order::{is_listing, kept_indices, listing};
use crate::text::{has_infix, is_infix};
use crate::types::{FdInfo, IrqData, MemData, ProcStats, SockInfo, MAX_IRQS};
use std::collections::HashMap;
use vstd::prelude::*;
use vstd::std_specs::hash::group_hash_axioms;
use vstd::string::{StringExecFns, StringSliceAdditionalSpecFns};
use vstd::utf8::encode_utf8;

verus! {

/// A process is listed unless it is a zombie (4) or dead (5).
pub open spec fn is_live(p: ProcStats) -> bool {
    p.state < 4
}

/// The user plus system time of a process, capped at `u64::MAX`.
pub open spec fn cpu_time(p: ProcStats) -> u64 {
    if p.utime_ns + p.stime_ns <= u64::MAX {
        (p.utime_ns + p.stime_ns) as u64
    } else {
        u64::MAX
    }
}

/// The process list: live processes, most CPU time (user plus system) first,
/// ties in their original order.
pub fn ps_listing(all: &[ProcStats]) -> (r: Vec<usize>)
    ensures
        is_listing(
            r@,
            all@.map_values(|p: ProcStats| is_live(p)),
            all@.map_values(|p: ProcStats| (u64::MAX - cpu_time(p)) as u64),
        ),
{
    let mut keep: Vec<bool> = Vec::new();
    let mut keys: Vec<u64> = Vec::new();
    let mut i: usize = 0;
    while i < all.len()
        invariant
            i <= all@.len(),
            keep@ == all@.take(i as int).map_values(|p: ProcStats| is_live(p)),
            keys@ == all@.take(i as int).map_values(|p: ProcStats| (u64::MAX - cpu_time(p)) as u64),
        decreases all@.len() - i,
    {
        let p = &all[i];
        let t = match p.utime_ns.checked_add(p.stime_ns) {
            Some(t) => t,
            None => u64::MAX,
        };
        keep.push(p.state < 4);
        keys.push(u64::MAX - t);
        i = i + 1;
        assert(keep@ =~= all@.take(i as int).map_values(|p: ProcStats| is_live(p)));
        assert(keys@ =~= all@.take(i as int).map_values(
            |p: ProcStats| (u64::MAX - cpu_time(p)) as u64,
        ));
    }
    assert(all@.take(i as int) =~= all@);
    listing(keep.as_slice(), keys.as_slice())
}

/// The processes the exporter reports: live processes by CPU runtime, most
/// first, at most `limit` of them.
pub fn top_by_runtime(all: &[ProcStats], limit: usize) -> (r: Vec<usize>)
    ensures
        exists|full: Seq<usize>|
            is_listing(
                full,
                all@.map_values(|p: ProcStats| is_live(p)),
                all@.map_values(|p: ProcStats| (u64::MAX - p.cpu_runtime_ns) as u64),
            ) && r@ == full.take(if full.len() < limit { full.len() as int } else { limit as int }),
{
    let mut keep: Vec<bool> = Vec::new();
    let mut keys: Vec<u64> = Vec::new();
    let mut i: usize = 0;
    while i < all.len()
        invariant
            i <= all@.len(),
            keep@ == all@.take(i as int).map_values(|p: ProcStats| is_live(p)),
            keys@ == all@.take(i as int).map_values(
                |p: ProcStats| (u64::MAX - p.cpu_runtime_ns) as u64,
            ),
        decreases all@.len() - i,
    {
        let p = &all[i];
        keep.push(p.state < 4);
        keys.push(u64::MAX - p.cpu_runtime_ns);
        i = i + 1;
        assert(keep@ =~= all@.take(i as int).map_values(|p: ProcStats| is_live(p)));
        assert(keys@ =~= all@.take(i as int).map_values(
            |p: ProcStats| (u64::MAX - p.cpu_runtime_ns) as u64,
        ));
    }
    assert(all@.take(i as int) =~= all@);
    let mut full = listing(keep.as_slice(), keys.as_slice());
    let ghost f = full@;
    if full.len() > limit {
        full.truncate(limit);
    }
    assert(full@ =~= f.take(if f.len() < limit { f.len() as int } else { limit as int }));
    full
}

/// The CPU runtime each PID had in an earlier snapshot; when a PID occurs
/// more than once, its last record counts.
pub open spec fn prev_runtimes(prev: Seq<ProcStats>) -> Map<u32, u64>
    decreases prev.len(),
{
    if prev.len() == 0 {
        Map::empty()
    } else {
        prev_runtimes(prev.drop_last()).insert(prev.last().pid, prev.last().cpu_runtime_ns)
    }
}

/// The CPU runtime that process `p` gained since the earlier snapshot `prev`:
/// 0 when it was not there, and 0 rather than a negative amount.
pub open spec fn top_delta(prev: Seq<ProcStats>, p: ProcStats) -> u64 {
    let m = prev_runtimes(prev);
    if m.contains_key(p.pid) && p.cpu_runtime_ns >= m[p.pid] {
        (p.cpu_runtime_ns - m[p.pid]) as u64
    } else {
        0
    }
}

/// Which records of a snapshot are live processes.
pub open spec fn live_flags(all: Seq<ProcStats>) -> Seq<bool> {
    all.map_values(|p: ProcStats| is_live(p))
}

/// The sort keys of the live process view: most runtime gained first.
pub open spec fn top_keys(prev: Seq<ProcStats>, snap: Seq<ProcStats>) -> Seq<u64> {
    Seq::new(snap.len(), |i: int| (u64::MAX - top_delta(prev, snap[i])) as u64)
}

/// The live processes of a snapshot, in their order.
pub fn live_processes(all: &[ProcStats]) -> (r: Vec<usize>)
    ensures
        r@ == kept_indices(live_flags(all@)),
{
    let n = all.len();
    let ghost flags = live_flags(all@);
    let ghost idx = Seq::new(n as nat, |i: int| i as usize);
    let mut r: Vec<usize> = Vec::new();
    let mut i: usize = 0;
    assert(idx.take(0) =~= Seq::<usize>::empty());
    while i < n
        invariant
            n == all@.len(),
            flags == live_flags(all@),
            idx == Seq::new(n as nat, |i: int| i as usize),
            i <= n,
            r@ == idx.take(i as int).filter(|x: usize| flags[x as int]),
        decreases n - i,
    {
        assert(idx.take(i + 1).drop_last() =~= idx.take(i as int));
        assert(idx.take(i + 1).last() == i);
        proof {
            reveal_with_fuel(Seq::<usize>::filter, 1);
        }
        if all[i].state < 4 {
            r.push(i);
        }
        i = i + 1;
    }
    assert(idx.take(n as int) =~= idx);
    r
}

/// The rows of the live process view: the live processes of `snap`, most
/// CPU runtime gained since `prev` first (ties in their order in `snap`), at
/// most `rows` of them, each with the runtime it gained.
pub fn top_rows(prev: &[ProcStats], snap: &[ProcStats], rows: usize) -> (r: Vec<(usize, u64)>)
    ensures
        exists|full: Seq<usize>|
            #[trigger] is_listing(full, live_flags(snap@), top_keys(prev@, snap@))
                && r@.map_values(|x: (usize, u64)| x.0) == full.take(
                if full.len() < rows {
                    full.len() as int
                } else {
                    rows as int
                },
            ),
        forall|k: int| 0 <= k < r@.len() ==> r@[k].1 == top_delta(prev@, snap@[r@[k].0 as int]),
{
    broadcast use group_hash_axioms;

    let mut before: HashMap<u32, u64> = HashMap::new();
    let mut i: usize = 0;
    assert(prev@.take(0) =~= Seq::<ProcStats>::empty());
    while i < prev.len()
        invariant
            i <= prev@.len(),
            before@ == prev_runtimes(prev@.take(i as int)),
        decreases prev@.len() - i,
    {
        assert(prev@.take(i + 1).drop_last() =~= prev@.take(i as int));
        before.insert(prev[i].pid, prev[i].cpu_runtime_ns);
        i = i + 1;
    }
    assert(prev@.take(i as int) =~= prev@);
    let ghost keys_spec = top_keys(prev@, snap@);
    let mut keep: Vec<bool> = Vec::new();
    let mut keys: Vec<u64> = Vec::new();
    let mut deltas: Vec<u64> = Vec::new();
    let mut j: usize = 0;
    while j < snap.len()
        invariant
            before@ == prev_runtimes(prev@),
            keys_spec == top_keys(prev@, snap@),
            j <= snap@.len(),
            keep@ == snap@.take(j as int).map_values(|p: ProcStats| is_live(p)),
            keys@ == keys_spec.take(j as int),
            deltas@.len() == j,
            forall|t: int| 0 <= t < j ==> deltas@[t] == top_delta(prev@, snap@[t]),
        decreases snap@.len() - j,
    {
        let p = &snap[j];
        let d = match before.get(&p.pid) {
            Some(old) => if p.cpu_runtime_ns >= *old {
                p.cpu_runtime_ns - *old
            } else {
                0
            },
            None => 0,
        };
        assert(d == top_delta(prev@, snap@[j as int]));
        keep.push(p.state < 4);
        keys.push(u64::MAX - d);
        deltas.push(d);
        j = j + 1;
        assert(keep@ =~= snap@.take(j as int).map_values(|p: ProcStats| is_live(p)));
        assert(keys@ =~= keys_spec.take(j as int));
    }
    assert(snap@.take(j as int) =~= snap@);
    assert(keys_spec.take(j as int) =~= keys_spec);
    assert(keep@ == live_flags(snap@));
    let full = listing(keep.as_slice(), keys.as_slice());
    let n = if full.len() < rows {
        full.len()
    } else {
        rows
    };
    let mut r: Vec<(usize, u64)> = Vec::new();
    let mut k: usize = 0;
    while k < n
        invariant
            n <= full@.len(),
            k <= n,
            deltas@.len() == snap@.len(),
            forall|t: int| 0 <= t < snap@.len() ==> deltas@[t] == top_delta(prev@, snap@[t]),
            forall|t: int| 0 <= t < full@.len() ==> full@[t] < snap@.len(),
            r@.map_values(|x: (usize, u64)| x.0) == full@.take(k as int),
            forall|t: int| 0 <= t < r@.len() ==> r@[t].1 == top_delta(prev@, snap@[r@[t].0 as int]),
        decreases n - k,
    {
        let idx = full[k];
        let ghost old = r@;
        r.push((idx, deltas[idx]));
        assert(r@.map_values(|x: (usize, u64)| x.0) =~= old.map_values(|x: (usize, u64)| x.0).push(
            idx,
        ));
        assert(full@.take(k + 1) =~= full@.take(k as int).push(idx));
        k = k + 1;
    }
    r
}

/// Interrupt line `i` of a snapshot is listed in the soft-IRQ table (when
/// `soft`) or the hardware table.
pub open spec fn irq_row(d: IrqData, i: int, soft: bool) -> bool {
    i < d.nr_irqs && (d.irqs@[i].irq >= SOFTIRQ_BASE) == soft
}

/// The interrupt lines of one table (hardware or soft-IRQ), by IRQ number.
pub fn irq_listing(d: &IrqData, soft: bool) -> (r: Vec<usize>)
    ensures
        is_listing(
            r@,
            Seq::new(MAX_IRQS as nat, |i: int| irq_row(*d, i, soft)),
            Seq::new(MAX_IRQS as nat, |i: int| d.irqs@[i].irq as u64),
        ),
{
    let mut keep: Vec<bool> = Vec::new();
    let mut keys: Vec<u64> = Vec::new();
    let mut i: usize = 0;
    while i < MAX_IRQS
        invariant
            i <= MAX_IRQS,
            keep@ == Seq::new(i as nat, |i: int| irq_row(*d, i, soft)),
            keys@ == Seq::new(i as nat, |i: int| d.irqs@[i].irq as u64),
        decreases MAX_IRQS - i,
    {
        let irq = d.irqs[i].irq;
        keep.push((i as u64) < (d.nr_irqs as u64) && (irq >= SOFTIRQ_BASE) == soft);
        keys.push(irq as u64);
        i = i + 1;
        assert(keep@ =~= Seq::new(i as nat, |i: int| irq_row(*d, i, soft)));
        assert(keys@ =~= Seq::new(i as nat, |i: int| d.irqs@[i].irq as u64));
    }
    listing(keep.as_slice(), keys.as_slice())
}

/// Open descriptors by process, then by descriptor number.
pub fn fd_listing(all: &[FdInfo]) -> (r: Vec<usize>)
    ensures
        is_listing(
            r@,
            all@.map_values(|f: FdInfo| true),
            all@.map_values(|f: FdInfo| (f.pid * 0x1_0000_0000 + f.fd) as u64),
        ),
{
    let mut keep: Vec<bool> = Vec::new();
    let mut keys: Vec<u64> = Vec::new();
    let mut i: usize = 0;
    while i < all.len()
        invariant
            i <= all@.len(),
            keep@ == all@.take(i as int).map_values(|f: FdInfo| true),
            keys@ == all@.take(i as int).map_values(
                |f: FdInfo| (f.pid * 0x1_0000_0000 + f.fd) as u64,
            ),
        decreases all@.len() - i,
    {
        let f = &all[i];
        keep.push(true);
        keys.push(crate::reader::fd_key(f.pid, f.fd));
        i = i + 1;
        assert(keep@ =~= all@.take(i as int).map_values(|f: FdInfo| true));
        assert(keys@ =~= all@.take(i as int).map_values(
            |f: FdInfo| (f.pid * 0x1_0000_0000 + f.fd) as u64,
        ));
    }
    assert(all@.take(i as int) =~= all@);
    listing(keep.as_slice(), keys.as_slice())
}

/// Sockets by protocol, then by state.
pub fn sock_listing(all: &[SockInfo]) -> (r: Vec<usize>)
    ensures
        is_listing(
            r@,
            all@.map_values(|s: SockInfo| true),
            all@.map_values(|s: SockInfo| (s.protocol * 256 + s.state) as u64),
        ),
{
    let mut keep: Vec<bool> = Vec::new();
    let mut keys: Vec<u64> = Vec::new();
    let mut i: usize = 0;
    while i < all.len()
        invariant
            i <= all@.len(),
            keep@ == all@.take(i as int).map_values(|s: SockInfo| true),
            keys@ == all@.take(i as int).map_values(
                |s: SockInfo| (s.protocol * 256 + s.state) as u64,
            ),
        decreases all@.len() - i,
    {
        let s = &all[i];
        keep.push(true);
        keys.push((s.protocol as u64) * 256 + (s.state as u64));
        i = i + 1;
        assert(keep@ =~= all@.take(i as int).map_values(|s: SockInfo| true));
        assert(keys@ =~= all@.take(i as int).map_values(
            |s: SockInfo| (s.protocol * 256 + s.state) as u64,
        ));
    }
    assert(all@.take(i as int) =~= all@);
    listing(keep.as_slice(), keys.as_slice())
}

/// The process that owns each socket inode: the PID of the first descriptor
/// with that inode (inode 0 stands for no socket).
pub open spec fn socket_owner_map(fds: Seq<FdInfo>) -> Map<u64, u32>
    decreases fds.len(),
{
    if fds.len() == 0 {
        Map::empty()
    } else {
        let m = socket_owner_map(fds.drop_last());
        let f = fds.last();
        if f.inode > 0 && !m.contains_key(f.inode) {
            m.insert(f.inode, f.pid)
        } else {
            m
        }
    }
}

/// The owner of each socket inode among the open descriptors.
pub fn socket_owners(fds: &[FdInfo]) -> (r: HashMap<u64, u32>)
    ensures
        r@ == socket_owner_map(fds@),
{
    broadcast use group_hash_axioms;

    let mut r: HashMap<u64, u32> = HashMap::new();
    let mut i: usize = 0;
    assert(fds@.take(0) =~= Seq::<FdInfo>::empty());
    while i < fds.len()
        invariant
            i <= fds@.len(),
            r@ == socket_owner_map(fds@.take(i as int)),
        decreases fds@.len() - i,
    {
        let f = &fds[i];
        assert(fds@.take(i + 1).drop_last() =~= fds@.take(i as int));
        if f.inode > 0 && !r.contains_key(&f.inode) {
            r.insert(f.inode, f.pid);
        }
        i = i + 1;
    }
    assert(fds@.take(i as int) =~= fds@);
    r
}

/// One-letter process state, as `ps` shows it.
pub open spec fn state_letter_text(state: u8) -> Seq<char> {
    match state {
        0 => "R"@,
        1 => "S"@,
        2 => "D"@,
        3 => "T"@,
        4 => "Z"@,
        _ => "X"@,
    }
}

/// One-letter process state, as `ps` shows it.
pub fn state_letter(state: u8) -> (r: &'static str)
    ensures
        r@ == state_letter_text(state),
{
    match state {
        0 => "R",
        1 => "S",
        2 => "D",
        3 => "T",
        4 => "Z",
        _ => "X",
    }
}

/// The name of a process state.
pub open spec fn state_name_text(state: u8) -> Seq<char> {
    match state {
        0 => "Running"@,
        1 => "Sleeping"@,
        2 => "Disk sleep"@,
        3 => "Stopped"@,
        4 => "Zombie"@,
        _ => "Dead"@,
    }
}

/// The name of a process state.
pub fn state_name(state: u8) -> (r: &'static str)
    ensures
        r@ == state_name_text(state),
{
    match state {
        0 => "Running",
        1 => "Sleeping",
        2 => "Disk sleep",
        3 => "Stopped",
        4 => "Zombie",
        _ => "Dead",
    }
}

/// The name of a soft-IRQ vector.
pub open spec fn softirq_name_text(vec: u32) -> Seq<char> {
    match vec {
        0 => "HI"@,
        1 => "TIMER"@,
        2 => "NET_TX"@,
        3 => "NET_RX"@,
        4 => "BLOCK"@,
        5 => "IRQ_POLL"@,
        6 => "TASKLET"@,
        7 => "SCHED"@,
        8 => "HRTIMER"@,
        9 => "RCU"@,
        _ => "?"@,
    }
}

/// The name of a soft-IRQ vector.
pub fn softirq_name(vec: u32) -> (r: &'static str)
    ensures
        r@ == softirq_name_text(vec),
{
    match vec {
        0 => "HI",
        1 => "TIMER",
        2 => "NET_TX",
        3 => "NET_RX",
        4 => "BLOCK",
        5 => "IRQ_POLL",
        6 => "TASKLET",
        7 => "SCHED",
        8 => "HRTIMER",
        9 => "RCU",
        _ => "?",
    }
}

/// The protocol column of a socket: `tcp`, `udp` or `???`, with `6` after it
/// for IPv6 sockets.
pub open spec fn sock_proto_text(s: SockInfo) -> Seq<char> {
    let p = if s.protocol == 6 {
        "tcp"@
    } else if s.protocol == 17 {
        "udp"@
    } else {
        "???"@
    };
    if s.family == 10 {
        p + "6"@
    } else {
        p
    }
}

/// The protocol column of a socket.
pub fn sock_proto_label(s: &SockInfo) -> (r: String)
    ensures
        r@ == sock_proto_text(*s),
{
    let p = if s.protocol == 6 {
        "tcp"
    } else if s.protocol == 17 {
        "udp"
    } else {
        "???"
    };
    let mut r = String::from_str(p);
    if s.family == 10 {
        r.append("6");
    }
    r
}

/// The state column of a socket: the TCP state name for TCP, else empty.
pub fn sock_state_label(s: &SockInfo) -> (r: &'static str)
    ensures
        r@ == (if s.protocol == 6 {
            tcp_state_text(s.state)
        } else {
            ""@
        }),
{
    if s.protocol == 6 {
        tcp_state_str(s.state)
    } else {
        ""
    }
}

/// One end of a socket: `addr:port` for IPv4, `[::]:port` for IPv6, `?` otherwise.
pub open spec fn endpoint_text(family: u32, addr4: u32, port: u32) -> Seq<char> {
    if family == 2 {
        ipv4_text(addr4) + seq![':'] + decimal(port as nat)
    } else if family == 10 {
        "[::]:"@ + decimal(port as nat)
    } else {
        "?"@
    }
}

/// One end of a socket, as the socket table shows it.
pub fn endpoint_label(family: u32, addr4: u32, port: u32) -> (r: String)
    ensures
        r@ == endpoint_text(family, addr4, port),
{
    if family == 2 {
        let mut r = format_ipv4(addr4);
        proof {
            reveal_strlit(":");
        }
        r.append(":");
        push_decimal(&mut r, port as u64);
        r
    } else if family == 10 {
        let mut r = String::from_str("[::]:");
        push_decimal(&mut r, port as u64);
        r
    } else {
        String::from_str("?")
    }
}

/// Used memory as the memory summary shows it: total minus free minus
/// buffers, stopping at zero.
pub fn mem_used(m: &MemData) -> (r: u64)
    ensures
        r == ({
            let a = if m.total_bytes >= m.free_bytes {
                m.total_bytes - m.free_bytes
            } else {
                0
            };
            if a >= m.buffers_bytes {
                a - m.buffers_bytes
            } else {
                0
            }
        }),
{
    m.total_bytes.saturating_sub(m.free_bytes).saturating_sub(m.buffers_bytes)
}

/// The unit in which a byte count is shown.
#[derive(Clone, Copy, Debug, PartialEq, Eq, Structural)]
pub enum ByteUnit {
    GiB,
    MiB,
    KiB,
    Bytes,
}

/// The unit in which a byte count is shown: the largest binary unit that
/// is at most the count.
pub fn byte_unit(bytes: u64) -> (r: ByteUnit)
    ensures
        r == (if bytes >= 1024 * 1024 * 1024 {
            ByteUnit::GiB
        } else if bytes >= 1024 * 1024 {
            ByteUnit::MiB
        } else if bytes >= 1024 {
            ByteUnit::KiB
        } else {
            ByteUnit::Bytes
        }),
{
    if bytes >= 1024 * 1024 * 1024 {
        ByteUnit::GiB
    } else if bytes >= 1024 * 1024 {
        ByteUnit::MiB
    } else if bytes >= 1024 {
        ByteUnit::KiB
    } else {
        ByteUnit::Bytes
    }
}

/// How a CPU duration is shown.
#[derive(Clone, Copy, Debug, PartialEq, Eq, Structural)]
pub enum DurationForm {
    /// No time at all: shown as `-`.
    Blank,
    /// An hour or more: whole hours and minutes.
    HoursMinutes { hours: u64, minutes: u64 },
    /// A minute or more: whole minutes, then the nanoseconds of the rest of
    /// the minute, shown as seconds with one decimal.
    MinutesSeconds { minutes: u64, rest_ns: u64 },
    /// Less than a minute: the nanoseconds, shown as seconds with two decimals.
    Seconds { ns: u64 },
}

/// How a CPU duration of `ns` nanoseconds is shown.
pub fn duration_form(ns: u64) -> (r: DurationForm)
    ensures
        r == (if ns == 0 {
            DurationForm::Blank
        } else if ns / 1_000_000_000 >= 3600 {
            DurationForm::HoursMinutes {
                hours: (ns / 1_000_000_000 / 3600) as u64,
                minutes: ((ns / 1_000_000_000 % 3600) / 60) as u64,
            }
        } else if ns / 1_000_000_000 >= 60 {
            DurationForm::MinutesSeconds {
                minutes: (ns / 1_000_000_000 / 60) as u64,
                rest_ns: (ns % 60_000_000_000) as u64,
            }
        } else {
            DurationForm::Seconds { ns }
        }),
{
    if ns == 0 {
        return DurationForm::Blank;
    }
    let secs = ns / 1_000_000_000;
    if secs >= 3600 {
        DurationForm::HoursMinutes { hours: secs / 3600, minutes: (secs % 3600) / 60 }
    } else if secs >= 60 {
        DurationForm::MinutesSeconds { minutes: secs / 60, rest_ns: ns % 60_000_000_000 }
    } else {
        DurationForm::Seconds { ns }
    }
}

/// How an error from reading a map is explained to the user.
#[derive(Clone, Copy, Debug, PartialEq, Eq, Structural)]
pub enum ErrorHint {
    /// The map does not exist: the daemon is not running or skipped the
    /// collector.
    MissingMap,
    /// Access to the map was refused.
    PermissionDenied,
    /// Any other error: shown as it is.
    Plain,
}

/// How the error with message `msg` is explained to the user.
pub fn error_hint(msg: &str) -> (r: ErrorHint)
    ensures
        r == (if is_infix(encode_utf8("No such file or directory"@), encode_utf8(msg@)) {
            ErrorHint::MissingMap
        } else if is_infix(encode_utf8("Permission denied"@), encode_utf8(msg@)) || is_infix(
            encode_utf8("Operation not permitted"@),
            encode_utf8(msg@),
        ) {
            ErrorHint::PermissionDenied
        } else {
            ErrorHint::Plain
        }),
{
    let m = msg.as_bytes();
    if has_infix("No such file or directory".as_bytes(), m) {
        ErrorHint::MissingMap
    } else if has_infix("Permission denied".as_bytes(), m) || has_infix(
        "Operation not permitted".as_bytes(),
        m,
    ) {
        ErrorHint::PermissionDenied
    } else {
        ErrorHint::Plain
    }
}

} // verus!
