//! The records that the in-kernel collectors share with userspace, and their
//! byte layouts (`#[repr(C)]`, integers least significant byte first).
//!
//! A collector writes each record into a map; readers copy the bytes out and
//! decode them here. `stored_at` states which bytes hold which field.

use crate::bytes::{
    i32_bytes, le_i32, le_u16, le_u32, le_u64, lemma_block_in, lemma_entry_in, lemma_flatten_uniform, lemma_read_i32_bytes,
    lemma_read_u16_bytes, lemma_read_u32_bytes, lemma_read_u64_bytes, read_array, read_i32, read_u16,
    read_u32, read_u64, u16_bytes, u32_bytes, u64_bytes,
};
use vstd::prelude::*;

verus! {

pub const MAX_CPUS: usize = 256;

pub const MAX_NET_DEVS: usize = 32;

pub const MAX_DISKS: usize = 64;

pub const MAX_THERMAL_ZONES: usize = 16;

pub const MAX_IRQS: usize = 512;

pub const MAX_PROCS: usize = 8192;

pub const MAX_FDS: usize = 65536;

pub const MAX_FD_PATH: usize = 256;

/// Byte size of a [`CpuData`] record.
pub const CPU_DATA_SIZE: usize = 20584;

/// Byte size of a [`MemData`] record.
pub const MEM_DATA_SIZE: usize = 128;

/// Byte size of a [`NetData`] record.
pub const NET_DATA_SIZE: usize = 2584;

/// Byte size of a [`DiskData`] record.
pub const DISK_DATA_SIZE: usize = 6168;

/// Byte size of a [`ThermalData`] record.
pub const THERMAL_DATA_SIZE: usize = 536;

/// Byte size of a [`ProcStats`] record.
pub const PROC_STATS_SIZE: usize = 168;

/// Byte size of a [`ProcHeader`] record.
pub const PROC_HEADER_SIZE: usize = 24;

/// Byte size of a [`ProcfastConfig`] record.
pub const CONFIG_SIZE: usize = 8;

/// Byte size of an [`FdInfo`] record.
pub const FD_INFO_SIZE: usize = 288;

/// Byte size of a [`SockInfo`] record.
pub const SOCK_INFO_SIZE: usize = 72;

/// A record that readers copy out of a map as a whole.
pub trait SharedLayout: Sized {
    /// The number of bytes of one record.
    spec fn spec_size() -> nat;

    /// `self` is the record that the bytes `s` hold.
    spec fn stored_in(self, s: Seq<u8>) -> bool;

    fn size() -> (n: usize)
        ensures
            n == Self::spec_size(),
    ;

    /// Decodes one record.
    fn decode(b: &[u8]) -> (r: Self)
        requires
            b@.len() == Self::spec_size(),
        ensures
            r.stored_in(b@),
    ;
}

/// Per-CPU time accounting in nanoseconds.
#[derive(Clone, Copy, Debug)]
pub struct CpuStats {
    pub user_ns: u64,
    pub nice_ns: u64,
    pub system_ns: u64,
    pub idle_ns: u64,
    pub iowait_ns: u64,
    pub irq_ns: u64,
    pub softirq_ns: u64,
    pub steal_ns: u64,
    pub guest_ns: u64,
    pub guest_nice_ns: u64,
}

impl Default for CpuStats {
    /// The all-zero value.
    fn default() -> (r: Self)
        ensures
            r.is_zero(),
    {
        CpuStats {
            user_ns: 0,
            nice_ns: 0,
            system_ns: 0,
            idle_ns: 0,
            iowait_ns: 0,
            irq_ns: 0,
            softirq_ns: 0,
            steal_ns: 0,
            guest_ns: 0,
            guest_nice_ns: 0,
        }
    }
}

impl CpuStats {
    /// Every field of `self` is zero.
    pub open spec fn is_zero(self) -> bool {
        &&& self.user_ns == 0
        &&& self.nice_ns == 0
        &&& self.system_ns == 0
        &&& self.idle_ns == 0
        &&& self.iowait_ns == 0
        &&& self.irq_ns == 0
        &&& self.softirq_ns == 0
        &&& self.steal_ns == 0
        &&& self.guest_ns == 0
        &&& self.guest_nice_ns == 0
    }

    /// `self` is the value whose 80-byte layout starts at `off` in `s`.
    pub open spec fn stored_at(self, s: Seq<u8>, off: int) -> bool {
        &&& self.user_ns == le_u64(s, off + 0)
        &&& self.nice_ns == le_u64(s, off + 8)
        &&& self.system_ns == le_u64(s, off + 16)
        &&& self.idle_ns == le_u64(s, off + 24)
        &&& self.iowait_ns == le_u64(s, off + 32)
        &&& self.irq_ns == le_u64(s, off + 40)
        &&& self.softirq_ns == le_u64(s, off + 48)
        &&& self.steal_ns == le_u64(s, off + 56)
        &&& self.guest_ns == le_u64(s, off + 64)
        &&& self.guest_nice_ns == le_u64(s, off + 72)
    }

    /// Decodes the value whose layout starts at `off` in `b`.
    pub fn read_at(b: &[u8], off: usize) -> (r: Self)
        requires
            off + 80 <= b@.len(),
        ensures
            r.stored_at(b@, off as int),
    {
        let n = b.len();
        let user_ns = read_u64(b, off + 0);
        let nice_ns = read_u64(b, off + 8);
        let system_ns = read_u64(b, off + 16);
        let idle_ns = read_u64(b, off + 24);
        let iowait_ns = read_u64(b, off + 32);
        let irq_ns = read_u64(b, off + 40);
        let softirq_ns = read_u64(b, off + 48);
        let steal_ns = read_u64(b, off + 56);
        let guest_ns = read_u64(b, off + 64);
        let guest_nice_ns = read_u64(b, off + 72);
        CpuStats { user_ns, nice_ns, system_ns, idle_ns, iowait_ns, irq_ns, softirq_ns, steal_ns, guest_ns, guest_nice_ns }
    }
}

/// The 80 bytes of `x` in its `#[repr(C)]` layout: its fields in the order
/// they are declared, each as eight bytes, least significant first.
pub open spec fn cpu_stats_bytes(x: CpuStats) -> Seq<u8> {
    u64_bytes(x.user_ns) + u64_bytes(x.nice_ns) + u64_bytes(x.system_ns) + u64_bytes(x.idle_ns)
        + u64_bytes(x.iowait_ns) + u64_bytes(x.irq_ns) + u64_bytes(x.softirq_ns) + u64_bytes(
        x.steal_ns,
    ) + u64_bytes(x.guest_ns) + u64_bytes(x.guest_nice_ns)
}

/// Decoding inverts the `#[repr(C)]` encoding: bytes that hold `x` written
/// field by field in declaration order (user time in the first eight, nice
/// time in the next, then system time, ...) are decoded as `x` and nothing
/// else, wherever in a buffer they stand.
#[verifier::spinoff_prover]
#[verifier::rlimit(100)]
pub proof fn law_cpu_stats_layout(x: CpuStats, s: Seq<u8>, off: int)
    requires
        0 <= off,
        off + 80 <= s.len(),
        s.subrange(off, off + 80) == cpu_stats_bytes(x),
    ensures
        x.stored_at(s, off),
        forall|y: CpuStats| #[trigger] y.stored_at(s, off) ==> y == x,
{
    let e = cpu_stats_bytes(x);
    assert forall|j: int| 0 <= j < 80 implies s[off + j] == #[trigger] e[j] by {
        assert(s.subrange(off, off + 80)[j] == s[off + j]);
    }
    let fields = seq![
        x.user_ns,
        x.nice_ns,
        x.system_ns,
        x.idle_ns,
        x.iowait_ns,
        x.irq_ns,
        x.softirq_ns,
        x.steal_ns,
        x.guest_ns,
        x.guest_nice_ns,
    ];
    assert forall|i: int| 0 <= i < 10 implies le_u64(s, off + 8 * i) == #[trigger] fields[i] by {
        assert forall|j: int| 0 <= j < 8 implies s[off + 8 * i + j] == #[trigger] u64_bytes(
            fields[i],
        )[j] by {
            assert(s[off + (8 * i + j)] == e[8 * i + j]);
        }
        lemma_read_u64_bytes(s, off + 8 * i, fields[i]);
    }
    assert(le_u64(s, off + 8 * 0) == fields[0]);
    assert(le_u64(s, off + 8 * 1) == fields[1]);
    assert(le_u64(s, off + 8 * 2) == fields[2]);
    assert(le_u64(s, off + 8 * 3) == fields[3]);
    assert(le_u64(s, off + 8 * 4) == fields[4]);
    assert(le_u64(s, off + 8 * 5) == fields[5]);
    assert(le_u64(s, off + 8 * 6) == fields[6]);
    assert(le_u64(s, off + 8 * 7) == fields[7]);
    assert(le_u64(s, off + 8 * 8) == fields[8]);
    assert(le_u64(s, off + 8 * 9) == fields[9]);
}

/// Snapshot of CPU statistics for all CPUs.
#[derive(Clone, Copy)]
pub struct CpuData {
    /// Seqlock counter. Odd = a writer is active, even = consistent.
    pub seq: u64,
    /// Kernel monotonic timestamp when this snapshot was taken.
    pub timestamp_ns: u64,
    /// Number of online CPUs.
    pub nr_cpus: u32,
    pub _pad: u32,
    /// Aggregated stats across all CPUs.
    pub total: CpuStats,
    /// Per-CPU stats. Only indices `0..nr_cpus` are valid.
    pub per_cpu: [CpuStats; MAX_CPUS],
}

impl Default for CpuData {
    /// The all-zero value.
    fn default() -> (r: Self)
        ensures
            r.is_zero(),
    {
        CpuData {
            seq: 0,
            timestamp_ns: 0,
            nr_cpus: 0,
            _pad: 0,
            total: CpuStats::default(),
            per_cpu: [CpuStats::default(); MAX_CPUS],
        }
    }
}

impl CpuData {
    /// Every field of `self` is zero.
    pub open spec fn is_zero(self) -> bool {
        &&& self.seq == 0
        &&& self.timestamp_ns == 0
        &&& self.nr_cpus == 0
        &&& self._pad == 0
        &&& self.total.is_zero()
        &&& forall|i: int| 0 <= i < 256 ==> (#[trigger] self.per_cpu@[i]).is_zero()
    }

    /// `self` is the value whose 20584-byte layout starts at `off` in `s`.
    pub open spec fn stored_at(self, s: Seq<u8>, off: int) -> bool {
        &&& self.seq == le_u64(s, off + 0)
        &&& self.timestamp_ns == le_u64(s, off + 8)
        &&& self.nr_cpus == le_u32(s, off + 16)
        &&& self._pad == le_u32(s, off + 20)
        &&& self.total.stored_at(s, off + 24)
        &&& forall|i: int| 0 <= i < 256 ==> (#[trigger] self.per_cpu@[i]).stored_at(s, off + 104 + 80 * i)
    }

    /// Decodes the value whose layout starts at `off` in `b`.
    pub fn read_at(b: &[u8], off: usize) -> (r: Self)
        requires
            off + 20584 <= b@.len(),
        ensures
            r.stored_at(b@, off as int),
    {
        let n = b.len();
        let seq = read_u64(b, off + 0);
        let timestamp_ns = read_u64(b, off + 8);
        let nr_cpus = read_u32(b, off + 16);
        let _pad = read_u32(b, off + 20);
        let total = CpuStats::read_at(b, off + 24);
        let mut per_cpu = [CpuStats::default(); MAX_CPUS];
        let mut i: usize = 0;
        while i < MAX_CPUS
            invariant
                n == b@.len(),
                off + 20584 <= n,
                i <= 256,
                forall|j: int| 0 <= j < i ==> (#[trigger] per_cpu@[j]).stored_at(b@, off + 104 + 80 * j),
            decreases 256 - i,
        {
            per_cpu[i] = CpuStats::read_at(b, off + 104 + 80 * i);
            i = i + 1;
        }
        CpuData { seq, timestamp_ns, nr_cpus, _pad, total, per_cpu }
    }
}

impl SharedLayout for CpuData {
    open spec fn spec_size() -> nat {
        CPU_DATA_SIZE as nat
    }

    open spec fn stored_in(self, s: Seq<u8>) -> bool {
        self.stored_at(s, 0)
    }

    fn size() -> (n: usize) {
        CPU_DATA_SIZE
    }

    fn decode(b: &[u8]) -> (r: Self) {
        Self::read_at(b, 0)
    }
}

/// Snapshot of system memory statistics.
#[derive(Clone, Copy, Debug)]
pub struct MemData {
    pub seq: u64,
    pub timestamp_ns: u64,
    pub total_bytes: u64,
    pub free_bytes: u64,
    pub available_bytes: u64,
    pub buffers_bytes: u64,
    pub cached_bytes: u64,
    pub swap_total_bytes: u64,
    pub swap_free_bytes: u64,
    pub active_bytes: u64,
    pub inactive_bytes: u64,
    pub slab_reclaimable_bytes: u64,
    pub slab_unreclaimable_bytes: u64,
    pub dirty_bytes: u64,
    pub writeback_bytes: u64,
    pub shmem_bytes: u64,
}

impl Default for MemData {
    /// The all-zero value.
    fn default() -> (r: Self)
        ensures
            r.is_zero(),
    {
        MemData {
            seq: 0,
            timestamp_ns: 0,
            total_bytes: 0,
            free_bytes: 0,
            available_bytes: 0,
            buffers_bytes: 0,
            cached_bytes: 0,
            swap_total_bytes: 0,
            swap_free_bytes: 0,
            active_bytes: 0,
            inactive_bytes: 0,
            slab_reclaimable_bytes: 0,
            slab_unreclaimable_bytes: 0,
            dirty_bytes: 0,
            writeback_bytes: 0,
            shmem_bytes: 0,
        }
    }
}

impl MemData {
    /// Every field of `self` is zero.
    pub open spec fn is_zero(self) -> bool {
        &&& self.seq == 0
        &&& self.timestamp_ns == 0
        &&& self.total_bytes == 0
        &&& self.free_bytes == 0
        &&& self.available_bytes == 0
        &&& self.buffers_bytes == 0
        &&& self.cached_bytes == 0
        &&& self.swap_total_bytes == 0
        &&& self.swap_free_bytes == 0
        &&& self.active_bytes == 0
        &&& self.inactive_bytes == 0
        &&& self.slab_reclaimable_bytes == 0
        &&& self.slab_unreclaimable_bytes == 0
        &&& self.dirty_bytes == 0
        &&& self.writeback_bytes == 0
        &&& self.shmem_bytes == 0
    }

    /// `self` is the value whose 128-byte layout starts at `off` in `s`.
    pub open spec fn stored_at(self, s: Seq<u8>, off: int) -> bool {
        &&& self.seq == le_u64(s, off + 0)
        &&& self.timestamp_ns == le_u64(s, off + 8)
        &&& self.total_bytes == le_u64(s, off + 16)
        &&& self.free_bytes == le_u64(s, off + 24)
        &&& self.available_bytes == le_u64(s, off + 32)
        &&& self.buffers_bytes == le_u64(s, off + 40)
        &&& self.cached_bytes == le_u64(s, off + 48)
        &&& self.swap_total_bytes == le_u64(s, off + 56)
        &&& self.swap_free_bytes == le_u64(s, off + 64)
        &&& self.active_bytes == le_u64(s, off + 72)
        &&& self.inactive_bytes == le_u64(s, off + 80)
        &&& self.slab_reclaimable_bytes == le_u64(s, off + 88)
        &&& self.slab_unreclaimable_bytes == le_u64(s, off + 96)
        &&& self.dirty_bytes == le_u64(s, off + 104)
        &&& self.writeback_bytes == le_u64(s, off + 112)
        &&& self.shmem_bytes == le_u64(s, off + 120)
    }

    /// Decodes the value whose layout starts at `off` in `b`.
    pub fn read_at(b: &[u8], off: usize) -> (r: Self)
        requires
            off + 128 <= b@.len(),
        ensures
            r.stored_at(b@, off as int),
    {
        let n = b.len();
        let seq = read_u64(b, off + 0);
        let timestamp_ns = read_u64(b, off + 8);
        let total_bytes = read_u64(b, off + 16);
        let free_bytes = read_u64(b, off + 24);
        let available_bytes = read_u64(b, off + 32);
        let buffers_bytes = read_u64(b, off + 40);
        let cached_bytes = read_u64(b, off + 48);
        let swap_total_bytes = read_u64(b, off + 56);
        let swap_free_bytes = read_u64(b, off + 64);
        let active_bytes = read_u64(b, off + 72);
        let inactive_bytes = read_u64(b, off + 80);
        let slab_reclaimable_bytes = read_u64(b, off + 88);
        let slab_unreclaimable_bytes = read_u64(b, off + 96);
        let dirty_bytes = read_u64(b, off + 104);
        let writeback_bytes = read_u64(b, off + 112);
        let shmem_bytes = read_u64(b, off + 120);
        MemData { seq, timestamp_ns, total_bytes, free_bytes, available_bytes, buffers_bytes, cached_bytes, swap_total_bytes, swap_free_bytes, active_bytes, inactive_bytes, slab_reclaimable_bytes, slab_unreclaimable_bytes, dirty_bytes, writeback_bytes, shmem_bytes }
    }
}

impl SharedLayout for MemData {
    open spec fn spec_size() -> nat {
        MEM_DATA_SIZE as nat
    }

    open spec fn stored_in(self, s: Seq<u8>) -> bool {
        self.stored_at(s, 0)
    }

    fn size() -> (n: usize) {
        MEM_DATA_SIZE
    }

    fn decode(b: &[u8]) -> (r: Self) {
        Self::read_at(b, 0)
    }
}

/// Statistics for a single network device.
#[derive(Clone, Copy, Debug)]
pub struct NetDevStats {
    pub rx_bytes: u64,
    pub tx_bytes: u64,
    pub rx_packets: u64,
    pub tx_packets: u64,
    pub rx_errors: u64,
    pub tx_errors: u64,
    pub rx_dropped: u64,
    pub tx_dropped: u64,
    pub name: [u8; 16],
}

impl Default for NetDevStats {
    /// The all-zero value.
    fn default() -> (r: Self)
        ensures
            r.is_zero(),
    {
        NetDevStats {
            rx_bytes: 0,
            tx_bytes: 0,
            rx_packets: 0,
            tx_packets: 0,
            rx_errors: 0,
            tx_errors: 0,
            rx_dropped: 0,
            tx_dropped: 0,
            name: [0u8; 16],
        }
    }
}

impl NetDevStats {
    /// Every field of `self` is zero.
    pub open spec fn is_zero(self) -> bool {
        &&& self.rx_bytes == 0
        &&& self.tx_bytes == 0
        &&& self.rx_packets == 0
        &&& self.tx_packets == 0
        &&& self.rx_errors == 0
        &&& self.tx_errors == 0
        &&& self.rx_dropped == 0
        &&& self.tx_dropped == 0
        &&& forall|i: int| 0 <= i < 16 ==> self.name@[i] == 0
    }

    /// `self` is the value whose 80-byte layout starts at `off` in `s`.
    pub open spec fn stored_at(self, s: Seq<u8>, off: int) -> bool {
        &&& self.rx_bytes == le_u64(s, off + 0)
        &&& self.tx_bytes == le_u64(s, off + 8)
        &&& self.rx_packets == le_u64(s, off + 16)
        &&& self.tx_packets == le_u64(s, off + 24)
        &&& self.rx_errors == le_u64(s, off + 32)
        &&& self.tx_errors == le_u64(s, off + 40)
        &&& self.rx_dropped == le_u64(s, off + 48)
        &&& self.tx_dropped == le_u64(s, off + 56)
        &&& self.name@ == s.subrange(off + 64, off + 80)
    }

    /// Decodes the value whose layout starts at `off` in `b`.
    pub fn read_at(b: &[u8], off: usize) -> (r: Self)
        requires
            off + 80 <= b@.len(),
        ensures
            r.stored_at(b@, off as int),
    {
        let n = b.len();
        let rx_bytes = read_u64(b, off + 0);
        let tx_bytes = read_u64(b, off + 8);
        let rx_packets = read_u64(b, off + 16);
        let tx_packets = read_u64(b, off + 24);
        let rx_errors = read_u64(b, off + 32);
        let tx_errors = read_u64(b, off + 40);
        let rx_dropped = read_u64(b, off + 48);
        let tx_dropped = read_u64(b, off + 56);
        let name: [u8; 16] = read_array(b, off + 64);
        NetDevStats { rx_bytes, tx_bytes, rx_packets, tx_packets, rx_errors, tx_errors, rx_dropped, tx_dropped, name }
    }
}

/// Snapshot of network device statistics.
#[derive(Clone, Copy)]
pub struct NetData {
    pub seq: u64,
    pub timestamp_ns: u64,
    pub nr_devs: u32,
    pub _pad: u32,
    pub devs: [NetDevStats; MAX_NET_DEVS],
}

impl Default for NetData {
    /// The all-zero value.
    fn default() -> (r: Self)
        ensures
            r.is_zero(),
    {
        NetData {
            seq: 0,
            timestamp_ns: 0,
            nr_devs: 0,
            _pad: 0,
            devs: [NetDevStats::default(); MAX_NET_DEVS],
        }
    }
}

impl NetData {
    /// Every field of `self` is zero.
    pub open spec fn is_zero(self) -> bool {
        &&& self.seq == 0
        &&& self.timestamp_ns == 0
        &&& self.nr_devs == 0
        &&& self._pad == 0
        &&& forall|i: int| 0 <= i < 32 ==> (#[trigger] self.devs@[i]).is_zero()
    }

    /// `self` is the value whose 2584-byte layout starts at `off` in `s`.
    pub open spec fn stored_at(self, s: Seq<u8>, off: int) -> bool {
        &&& self.seq == le_u64(s, off + 0)
        &&& self.timestamp_ns == le_u64(s, off + 8)
        &&& self.nr_devs == le_u32(s, off + 16)
        &&& self._pad == le_u32(s, off + 20)
        &&& forall|i: int| 0 <= i < 32 ==> (#[trigger] self.devs@[i]).stored_at(s, off + 24 + 80 * i)
    }

    /// Decodes the value whose layout starts at `off` in `b`.
    pub fn read_at(b: &[u8], off: usize) -> (r: Self)
        requires
            off + 2584 <= b@.len(),
        ensures
            r.stored_at(b@, off as int),
    {
        let n = b.len();
        let seq = read_u64(b, off + 0);
        let timestamp_ns = read_u64(b, off + 8);
        let nr_devs = read_u32(b, off + 16);
        let _pad = read_u32(b, off + 20);
        let mut devs = [NetDevStats::default(); MAX_NET_DEVS];
        let mut i: usize = 0;
        while i < MAX_NET_DEVS
            invariant
                n == b@.len(),
                off + 2584 <= n,
                i <= 32,
                forall|j: int| 0 <= j < i ==> (#[trigger] devs@[j]).stored_at(b@, off + 24 + 80 * j),
            decreases 32 - i,
        {
            devs[i] = NetDevStats::read_at(b, off + 24 + 80 * i);
            i = i + 1;
        }
        NetData { seq, timestamp_ns, nr_devs, _pad, devs }
    }
}

impl SharedLayout for NetData {
    open spec fn spec_size() -> nat {
        NET_DATA_SIZE as nat
    }

    open spec fn stored_in(self, s: Seq<u8>) -> bool {
        self.stored_at(s, 0)
    }

    fn size() -> (n: usize) {
        NET_DATA_SIZE
    }

    fn decode(b: &[u8]) -> (r: Self) {
        Self::read_at(b, 0)
    }
}

/// Statistics for a single block device.
#[derive(Clone, Copy, Debug)]
pub struct DiskStats {
    pub read_ios: u64,
    pub write_ios: u64,
    pub read_sectors: u64,
    pub write_sectors: u64,
    pub read_ns: u64,
    pub write_ns: u64,
    pub io_ticks_ns: u64,
    pub major: u32,
    pub minor: u32,
    pub name: [u8; 32],
}

impl Default for DiskStats {
    /// The all-zero value.
    fn default() -> (r: Self)
        ensures
            r.is_zero(),
    {
        DiskStats {
            read_ios: 0,
            write_ios: 0,
            read_sectors: 0,
            write_sectors: 0,
            read_ns: 0,
            write_ns: 0,
            io_ticks_ns: 0,
            major: 0,
            minor: 0,
            name: [0u8; 32],
        }
    }
}

impl DiskStats {
    /// Every field of `self` is zero.
    pub open spec fn is_zero(self) -> bool {
        &&& self.read_ios == 0
        &&& self.write_ios == 0
        &&& self.read_sectors == 0
        &&& self.write_sectors == 0
        &&& self.read_ns == 0
        &&& self.write_ns == 0
        &&& self.io_ticks_ns == 0
        &&& self.major == 0
        &&& self.minor == 0
        &&& forall|i: int| 0 <= i < 32 ==> self.name@[i] == 0
    }

    /// `self` is the value whose 96-byte layout starts at `off` in `s`.
    pub open spec fn stored_at(self, s: Seq<u8>, off: int) -> bool {
        &&& self.read_ios == le_u64(s, off + 0)
        &&& self.write_ios == le_u64(s, off + 8)
        &&& self.read_sectors == le_u64(s, off + 16)
        &&& self.write_sectors == le_u64(s, off + 24)
        &&& self.read_ns == le_u64(s, off + 32)
        &&& self.write_ns == le_u64(s, off + 40)
        &&& self.io_ticks_ns == le_u64(s, off + 48)
        &&& self.major == le_u32(s, off + 56)
        &&& self.minor == le_u32(s, off + 60)
        &&& self.name@ == s.subrange(off + 64, off + 96)
    }

    /// Decodes the value whose layout starts at `off` in `b`.
    pub fn read_at(b: &[u8], off: usize) -> (r: Self)
        requires
            off + 96 <= b@.len(),
        ensures
            r.stored_at(b@, off as int),
    {
        let n = b.len();
        let read_ios = read_u64(b, off + 0);
        let write_ios = read_u64(b, off + 8);
        let read_sectors = read_u64(b, off + 16);
        let write_sectors = read_u64(b, off + 24);
        let read_ns = read_u64(b, off + 32);
        let write_ns = read_u64(b, off + 40);
        let io_ticks_ns = read_u64(b, off + 48);
        let major = read_u32(b, off + 56);
        let minor = read_u32(b, off + 60);
        let name: [u8; 32] = read_array(b, off + 64);
        DiskStats { read_ios, write_ios, read_sectors, write_sectors, read_ns, write_ns, io_ticks_ns, major, minor, name }
    }
}

/// Snapshot of block device statistics.
#[derive(Clone, Copy)]
pub struct DiskData {
    pub seq: u64,
    pub timestamp_ns: u64,
    pub nr_disks: u32,
    pub _pad: u32,
    pub disks: [DiskStats; MAX_DISKS],
}

impl Default for DiskData {
    /// The all-zero value.
    fn default() -> (r: Self)
        ensures
            r.is_zero(),
    {
        DiskData {
            seq: 0,
            timestamp_ns: 0,
            nr_disks: 0,
            _pad: 0,
            disks: [DiskStats::default(); MAX_DISKS],
        }
    }
}

impl DiskData {
    /// Every field of `self` is zero.
    pub open spec fn is_zero(self) -> bool {
        &&& self.seq == 0
        &&& self.timestamp_ns == 0
        &&& self.nr_disks == 0
        &&& self._pad == 0
        &&& forall|i: int| 0 <= i < 64 ==> (#[trigger] self.disks@[i]).is_zero()
    }

    /// `self` is the value whose 6168-byte layout starts at `off` in `s`.
    pub open spec fn stored_at(self, s: Seq<u8>, off: int) -> bool {
        &&& self.seq == le_u64(s, off + 0)
        &&& self.timestamp_ns == le_u64(s, off + 8)
        &&& self.nr_disks == le_u32(s, off + 16)
        &&& self._pad == le_u32(s, off + 20)
        &&& forall|i: int| 0 <= i < 64 ==> (#[trigger] self.disks@[i]).stored_at(s, off + 24 + 96 * i)
    }

    /// Decodes the value whose layout starts at `off` in `b`.
    pub fn read_at(b: &[u8], off: usize) -> (r: Self)
        requires
            off + 6168 <= b@.len(),
        ensures
            r.stored_at(b@, off as int),
    {
        let n = b.len();
        let seq = read_u64(b, off + 0);
        let timestamp_ns = read_u64(b, off + 8);
        let nr_disks = read_u32(b, off + 16);
        let _pad = read_u32(b, off + 20);
        let mut disks = [DiskStats::default(); MAX_DISKS];
        let mut i: usize = 0;
        while i < MAX_DISKS
            invariant
                n == b@.len(),
                off + 6168 <= n,
                i <= 64,
                forall|j: int| 0 <= j < i ==> (#[trigger] disks@[j]).stored_at(b@, off + 24 + 96 * j),
            decreases 64 - i,
        {
            disks[i] = DiskStats::read_at(b, off + 24 + 96 * i);
            i = i + 1;
        }
        DiskData { seq, timestamp_ns, nr_disks, _pad, disks }
    }
}

impl SharedLayout for DiskData {
    open spec fn spec_size() -> nat {
        DISK_DATA_SIZE as nat
    }

    open spec fn stored_in(self, s: Seq<u8>) -> bool {
        self.stored_at(s, 0)
    }

    fn size() -> (n: usize) {
        DISK_DATA_SIZE
    }

    fn decode(b: &[u8]) -> (r: Self) {
        Self::read_at(b, 0)
    }
}

/// A single thermal zone reading.
#[derive(Clone, Copy, Debug)]
pub struct ThermalZone {
    pub temp_millicelsius: i32,
    pub _pad: u32,
    pub zone_type: [u8; 20],
    pub _pad2: [u8; 4],
}

impl Default for ThermalZone {
    /// The all-zero value.
    fn default() -> (r: Self)
        ensures
            r.is_zero(),
    {
        ThermalZone {
            temp_millicelsius: 0,
            _pad: 0,
            zone_type: [0u8; 20],
            _pad2: [0u8; 4],
        }
    }
}

impl ThermalZone {
    /// Every field of `self` is zero.
    pub open spec fn is_zero(self) -> bool {
        &&& self.temp_millicelsius == 0
        &&& self._pad == 0
        &&& forall|i: int| 0 <= i < 20 ==> self.zone_type@[i] == 0
        &&& forall|i: int| 0 <= i < 4 ==> self._pad2@[i] == 0
    }

    /// `self` is the value whose 32-byte layout starts at `off` in `s`.
    pub open spec fn stored_at(self, s: Seq<u8>, off: int) -> bool {
        &&& self.temp_millicelsius == le_i32(s, off + 0)
        &&& self._pad == le_u32(s, off + 4)
        &&& self.zone_type@ == s.subrange(off + 8, off + 28)
        &&& self._pad2@ == s.subrange(off + 28, off + 32)
    }

    /// Decodes the value whose layout starts at `off` in `b`.
    pub fn read_at(b: &[u8], off: usize) -> (r: Self)
        requires
            off + 32 <= b@.len(),
        ensures
            r.stored_at(b@, off as int),
    {
        let n = b.len();
        let temp_millicelsius = read_i32(b, off + 0);
        let _pad = read_u32(b, off + 4);
        let zone_type: [u8; 20] = read_array(b, off + 8);
        let _pad2: [u8; 4] = read_array(b, off + 28);
        ThermalZone { temp_millicelsius, _pad, zone_type, _pad2 }
    }
}

/// Snapshot of thermal zone data.
#[derive(Clone, Copy)]
pub struct ThermalData {
    pub seq: u64,
    pub timestamp_ns: u64,
    pub nr_zones: u32,
    pub _pad: u32,
    pub zones: [ThermalZone; MAX_THERMAL_ZONES],
}

impl Default for ThermalData {
    /// The all-zero value.
    fn default() -> (r: Self)
        ensures
            r.is_zero(),
    {
        ThermalData {
            seq: 0,
            timestamp_ns: 0,
            nr_zones: 0,
            _pad: 0,
            zones: [ThermalZone::default(); MAX_THERMAL_ZONES],
        }
    }
}

impl ThermalData {
    /// Every field of `self` is zero.
    pub open spec fn is_zero(self) -> bool {
        &&& self.seq == 0
        &&& self.timestamp_ns == 0
        &&& self.nr_zones == 0
        &&& self._pad == 0
        &&& forall|i: int| 0 <= i < 16 ==> (#[trigger] self.zones@[i]).is_zero()
    }

    /// `self` is the value whose 536-byte layout starts at `off` in `s`.
    pub open spec fn stored_at(self, s: Seq<u8>, off: int) -> bool {
        &&& self.seq == le_u64(s, off + 0)
        &&& self.timestamp_ns == le_u64(s, off + 8)
        &&& self.nr_zones == le_u32(s, off + 16)
        &&& self._pad == le_u32(s, off + 20)
        &&& forall|i: int| 0 <= i < 16 ==> (#[trigger] self.zones@[i]).stored_at(s, off + 24 + 32 * i)
    }

    /// Decodes the value whose layout starts at `off` in `b`.
    pub fn read_at(b: &[u8], off: usize) -> (r: Self)
        requires
            off + 536 <= b@.len(),
        ensures
            r.stored_at(b@, off as int),
    {
        let n = b.len();
        let seq = read_u64(b, off + 0);
        let timestamp_ns = read_u64(b, off + 8);
        let nr_zones = read_u32(b, off + 16);
        let _pad = read_u32(b, off + 20);
        let mut zones = [ThermalZone::default(); MAX_THERMAL_ZONES];
        let mut i: usize = 0;
        while i < MAX_THERMAL_ZONES
            invariant
                n == b@.len(),
                off + 536 <= n,
                i <= 16,
                forall|j: int| 0 <= j < i ==> (#[trigger] zones@[j]).stored_at(b@, off + 24 + 32 * j),
            decreases 16 - i,
        {
            zones[i] = ThermalZone::read_at(b, off + 24 + 32 * i);
            i = i + 1;
        }
        ThermalData { seq, timestamp_ns, nr_zones, _pad, zones }
    }
}

impl SharedLayout for ThermalData {
    open spec fn spec_size() -> nat {
        THERMAL_DATA_SIZE as nat
    }

    open spec fn stored_in(self, s: Seq<u8>) -> bool {
        self.stored_at(s, 0)
    }

    fn size() -> (n: usize) {
        THERMAL_DATA_SIZE
    }

    fn decode(b: &[u8]) -> (r: Self) {
        Self::read_at(b, 0)
    }
}

/// Per-IRQ counters for a single interrupt line.
#[derive(Clone, Copy)]
pub struct IrqStats {
    /// IRQ number (Linux IRQ, not hardware vector).
    pub irq: u32,
    pub _pad: u32,
    /// Total count across all CPUs.
    pub total_count: u64,
    /// IRQ chip name (e.g. "IO-APIC", "PCI-MSI").
    pub chip_name: [u8; 32],
    /// Action name (e.g. "ahci[0000:00:1f.2]", "eth0").
    pub action_name: [u8; 64],
}

impl Default for IrqStats {
    /// The all-zero value.
    fn default() -> (r: Self)
        ensures
            r.is_zero(),
    {
        IrqStats {
            irq: 0,
            _pad: 0,
            total_count: 0,
            chip_name: [0u8; 32],
            action_name: [0u8; 64],
        }
    }
}

impl IrqStats {
    /// Every field of `self` is zero.
    pub open spec fn is_zero(self) -> bool {
        &&& self.irq == 0
        &&& self._pad == 0
        &&& self.total_count == 0
        &&& forall|i: int| 0 <= i < 32 ==> self.chip_name@[i] == 0
        &&& forall|i: int| 0 <= i < 64 ==> self.action_name@[i] == 0
    }

    /// `self` is the value whose 112-byte layout starts at `off` in `s`.
    pub open spec fn stored_at(self, s: Seq<u8>, off: int) -> bool {
        &&& self.irq == le_u32(s, off + 0)
        &&& self._pad == le_u32(s, off + 4)
        &&& self.total_count == le_u64(s, off + 8)
        &&& self.chip_name@ == s.subrange(off + 16, off + 48)
        &&& self.action_name@ == s.subrange(off + 48, off + 112)
    }

}

/// Snapshot of interrupt statistics (the data of `/proc/interrupts`).
#[derive(Clone, Copy)]
pub struct IrqData {
    pub seq: u64,
    pub timestamp_ns: u64,
    /// Number of IRQ lines with non-zero counts.
    pub nr_irqs: u32,
    pub _pad: u32,
    /// Per-IRQ statistics. Only indices `0..nr_irqs` are valid.
    pub irqs: [IrqStats; MAX_IRQS],
}

impl Default for IrqData {
    /// The all-zero value.
    fn default() -> (r: Self)
        ensures
            r.is_zero(),
    {
        IrqData {
            seq: 0,
            timestamp_ns: 0,
            nr_irqs: 0,
            _pad: 0,
            irqs: [IrqStats::default(); MAX_IRQS],
        }
    }
}

impl IrqData {
    /// Every field of `self` is zero.
    pub open spec fn is_zero(self) -> bool {
        &&& self.seq == 0
        &&& self.timestamp_ns == 0
        &&& self.nr_irqs == 0
        &&& self._pad == 0
        &&& forall|i: int| 0 <= i < 512 ==> (#[trigger] self.irqs@[i]).is_zero()
    }

    /// `self` is the value whose 57368-byte layout starts at `off` in `s`.
    pub open spec fn stored_at(self, s: Seq<u8>, off: int) -> bool {
        &&& self.seq == le_u64(s, off + 0)
        &&& self.timestamp_ns == le_u64(s, off + 8)
        &&& self.nr_irqs == le_u32(s, off + 16)
        &&& self._pad == le_u32(s, off + 20)
        &&& forall|i: int| 0 <= i < 512 ==> (#[trigger] self.irqs@[i]).stored_at(s, off + 24 + 112 * i)
    }

}

/// Per-process statistics (the data of `/proc/[pid]/stat`, `statm` and `io`).
#[derive(Clone, Copy, Debug)]
pub struct ProcStats {
    /// Process ID.
    pub pid: u32,
    /// Thread group leader PID (== pid for main thread).
    pub tgid: u32,
    /// Parent PID.
    pub ppid: u32,
    /// Process state: 0=running, 1=sleeping, 2=disk sleep, 3=stopped, 4=zombie, 5=dead.
    pub state: u8,
    pub _pad1: [u8; 3],
    /// User ID of the process owner.
    pub uid: u32,
    /// Number of threads.
    pub nr_threads: u32,
    /// Process name (comm).
    pub comm: [u8; 16],
    /// CPU time in user mode (nanoseconds).
    pub utime_ns: u64,
    /// CPU time in kernel mode (nanoseconds).
    pub stime_ns: u64,
    /// Cumulative user time of all waited-for children.
    pub cutime_ns: u64,
    /// Cumulative system time of all waited-for children.
    pub cstime_ns: u64,
    /// Scheduler priority (nice value, -20 to 19).
    pub nice: i32,
    /// Scheduling policy (SCHED_NORMAL=0, SCHED_FIFO=1, etc.).
    pub policy: u32,
    /// CPU the process last ran on.
    pub last_cpu: u32,
    /// Real-time priority (0-99). 0 for normal processes.
    pub rt_priority: u32,
    /// Timestamp of last schedule-in event.
    pub last_seen_ns: u64,
    /// Voluntary context switches.
    pub vol_ctxsw: u64,
    /// Involuntary context switches.
    pub invol_ctxsw: u64,
    /// Resident set size in bytes.
    pub rss_bytes: u64,
    /// Virtual memory size in bytes.
    pub vsize_bytes: u64,
    /// Shared memory (file-backed pages) in bytes.
    pub shared_bytes: u64,
    /// Bytes read (I/O accounting).
    pub read_bytes: u64,
    /// Bytes written (I/O accounting).
    pub write_bytes: u64,
    /// Precise cumulative CPU runtime in nanoseconds.
    pub cpu_runtime_ns: u64,
    /// Process start time (monotonic ns since boot).
    pub start_time_ns: u64,
}

impl Default for ProcStats {
    /// The all-zero value.
    fn default() -> (r: Self)
        ensures
            r.is_zero(),
    {
        ProcStats {
            pid: 0,
            tgid: 0,
            ppid: 0,
            state: 0,
            _pad1: [0u8; 3],
            uid: 0,
            nr_threads: 0,
            comm: [0u8; 16],
            utime_ns: 0,
            stime_ns: 0,
            cutime_ns: 0,
            cstime_ns: 0,
            nice: 0,
            policy: 0,
            last_cpu: 0,
            rt_priority: 0,
            last_seen_ns: 0,
            vol_ctxsw: 0,
            invol_ctxsw: 0,
            rss_bytes: 0,
            vsize_bytes: 0,
            shared_bytes: 0,
            read_bytes: 0,
            write_bytes: 0,
            cpu_runtime_ns: 0,
            start_time_ns: 0,
        }
    }
}

impl ProcStats {
    /// Every field of `self` is zero.
    pub open spec fn is_zero(self) -> bool {
        &&& self.pid == 0
        &&& self.tgid == 0
        &&& self.ppid == 0
        &&& self.state == 0
        &&& forall|i: int| 0 <= i < 3 ==> self._pad1@[i] == 0
        &&& self.uid == 0
        &&& self.nr_threads == 0
        &&& forall|i: int| 0 <= i < 16 ==> self.comm@[i] == 0
        &&& self.utime_ns == 0
        &&& self.stime_ns == 0
        &&& self.cutime_ns == 0
        &&& self.cstime_ns == 0
        &&& self.nice == 0
        &&& self.policy == 0
        &&& self.last_cpu == 0
        &&& self.rt_priority == 0
        &&& self.last_seen_ns == 0
        &&& self.vol_ctxsw == 0
        &&& self.invol_ctxsw == 0
        &&& self.rss_bytes == 0
        &&& self.vsize_bytes == 0
        &&& self.shared_bytes == 0
        &&& self.read_bytes == 0
        &&& self.write_bytes == 0
        &&& self.cpu_runtime_ns == 0
        &&& self.start_time_ns == 0
    }

    /// `self` is the value whose 168-byte layout starts at `off` in `s`.
    pub open spec fn stored_at(self, s: Seq<u8>, off: int) -> bool {
        &&& self.pid == le_u32(s, off + 0)
        &&& self.tgid == le_u32(s, off + 4)
        &&& self.ppid == le_u32(s, off + 8)
        &&& self.state == s[off + 12]
        &&& self._pad1@ == s.subrange(off + 13, off + 16)
        &&& self.uid == le_u32(s, off + 16)
        &&& self.nr_threads == le_u32(s, off + 20)
        &&& self.comm@ == s.subrange(off + 24, off + 40)
        &&& self.utime_ns == le_u64(s, off + 40)
        &&& self.stime_ns == le_u64(s, off + 48)
        &&& self.cutime_ns == le_u64(s, off + 56)
        &&& self.cstime_ns == le_u64(s, off + 64)
        &&& self.nice == le_i32(s, off + 72)
        &&& self.policy == le_u32(s, off + 76)
        &&& self.last_cpu == le_u32(s, off + 80)
        &&& self.rt_priority == le_u32(s, off + 84)
        &&& self.last_seen_ns == le_u64(s, off + 88)
        &&& self.vol_ctxsw == le_u64(s, off + 96)
        &&& self.invol_ctxsw == le_u64(s, off + 104)
        &&& self.rss_bytes == le_u64(s, off + 112)
        &&& self.vsize_bytes == le_u64(s, off + 120)
        &&& self.shared_bytes == le_u64(s, off + 128)
        &&& self.read_bytes == le_u64(s, off + 136)
        &&& self.write_bytes == le_u64(s, off + 144)
        &&& self.cpu_runtime_ns == le_u64(s, off + 152)
        &&& self.start_time_ns == le_u64(s, off + 160)
    }

    /// Decodes the value whose layout starts at `off` in `b`.
    pub fn read_at(b: &[u8], off: usize) -> (r: Self)
        requires
            off + 168 <= b@.len(),
        ensures
            r.stored_at(b@, off as int),
    {
        let n = b.len();
        let pid = read_u32(b, off + 0);
        let tgid = read_u32(b, off + 4);
        let ppid = read_u32(b, off + 8);
        let state = b[off + 12];
        let _pad1: [u8; 3] = read_array(b, off + 13);
        let uid = read_u32(b, off + 16);
        let nr_threads = read_u32(b, off + 20);
        let comm: [u8; 16] = read_array(b, off + 24);
        let utime_ns = read_u64(b, off + 40);
        let stime_ns = read_u64(b, off + 48);
        let cutime_ns = read_u64(b, off + 56);
        let cstime_ns = read_u64(b, off + 64);
        let nice = read_i32(b, off + 72);
        let policy = read_u32(b, off + 76);
        let last_cpu = read_u32(b, off + 80);
        let rt_priority = read_u32(b, off + 84);
        let last_seen_ns = read_u64(b, off + 88);
        let vol_ctxsw = read_u64(b, off + 96);
        let invol_ctxsw = read_u64(b, off + 104);
        let rss_bytes = read_u64(b, off + 112);
        let vsize_bytes = read_u64(b, off + 120);
        let shared_bytes = read_u64(b, off + 128);
        let read_bytes = read_u64(b, off + 136);
        let write_bytes = read_u64(b, off + 144);
        let cpu_runtime_ns = read_u64(b, off + 152);
        let start_time_ns = read_u64(b, off + 160);
        ProcStats { pid, tgid, ppid, state, _pad1, uid, nr_threads, comm, utime_ns, stime_ns, cutime_ns, cstime_ns, nice, policy, last_cpu, rt_priority, last_seen_ns, vol_ctxsw, invol_ctxsw, rss_bytes, vsize_bytes, shared_bytes, read_bytes, write_bytes, cpu_runtime_ns, start_time_ns }
    }
}

impl SharedLayout for ProcStats {
    open spec fn spec_size() -> nat {
        PROC_STATS_SIZE as nat
    }

    open spec fn stored_in(self, s: Seq<u8>) -> bool {
        self.stored_at(s, 0)
    }

    fn size() -> (n: usize) {
        PROC_STATS_SIZE
    }

    fn decode(b: &[u8]) -> (r: Self) {
        Self::read_at(b, 0)
    }
}

/// Header of the process stats snapshot: metadata kept in a single-entry array map.
#[derive(Clone, Copy, Debug)]
pub struct ProcHeader {
    pub seq: u64,
    pub timestamp_ns: u64,
    /// Total number of tracked processes.
    pub nr_procs: u32,
    pub _pad: u32,
}

impl Default for ProcHeader {
    /// The all-zero value.
    fn default() -> (r: Self)
        ensures
            r.is_zero(),
    {
        ProcHeader {
            seq: 0,
            timestamp_ns: 0,
            nr_procs: 0,
            _pad: 0,
        }
    }
}

impl ProcHeader {
    /// Every field of `self` is zero.
    pub open spec fn is_zero(self) -> bool {
        &&& self.seq == 0
        &&& self.timestamp_ns == 0
        &&& self.nr_procs == 0
        &&& self._pad == 0
    }

    /// `self` is the value whose 24-byte layout starts at `off` in `s`.
    pub open spec fn stored_at(self, s: Seq<u8>, off: int) -> bool {
        &&& self.seq == le_u64(s, off + 0)
        &&& self.timestamp_ns == le_u64(s, off + 8)
        &&& self.nr_procs == le_u32(s, off + 16)
        &&& self._pad == le_u32(s, off + 20)
    }

    /// Decodes the value whose layout starts at `off` in `b`.
    pub fn read_at(b: &[u8], off: usize) -> (r: Self)
        requires
            off + 24 <= b@.len(),
        ensures
            r.stored_at(b@, off as int),
    {
        let n = b.len();
        let seq = read_u64(b, off + 0);
        let timestamp_ns = read_u64(b, off + 8);
        let nr_procs = read_u32(b, off + 16);
        let _pad = read_u32(b, off + 20);
        ProcHeader { seq, timestamp_ns, nr_procs, _pad }
    }
}

impl SharedLayout for ProcHeader {
    open spec fn spec_size() -> nat {
        PROC_HEADER_SIZE as nat
    }

    open spec fn stored_in(self, s: Seq<u8>) -> bool {
        self.stored_at(s, 0)
    }

    fn size() -> (n: usize) {
        PROC_HEADER_SIZE
    }

    fn decode(b: &[u8]) -> (r: Self) {
        Self::read_at(b, 0)
    }
}

/// Configuration written by userspace, read by the collectors.
#[derive(Clone, Copy, Debug)]
pub struct ProcfastConfig {
    /// Collection interval in nanoseconds.
    pub interval_ns: u64,
}

impl Default for ProcfastConfig {
    /// The all-zero value.
    fn default() -> (r: Self)
        ensures
            r.is_zero(),
    {
        ProcfastConfig {
            interval_ns: 0,
        }
    }
}

impl ProcfastConfig {
    /// Every field of `self` is zero.
    pub open spec fn is_zero(self) -> bool {
        &&& self.interval_ns == 0
    }

    /// `self` is the value whose 8-byte layout starts at `off` in `s`.
    pub open spec fn stored_at(self, s: Seq<u8>, off: int) -> bool {
        &&& self.interval_ns == le_u64(s, off + 0)
    }

}

/// Per-file-descriptor info (the data of `/proc/[pid]/fd/`).
#[derive(Clone, Copy)]
pub struct FdInfo {
    /// Process ID (tgid).
    pub pid: u32,
    /// File descriptor number.
    pub fd: u32,
    /// Timestamp when the file was opened (monotonic ns), 0 if unknown.
    pub open_time_ns: u64,
    /// File inode number (for matching against the socket map).
    pub inode: u64,
    /// Open flags (O_RDONLY, O_WRONLY, etc.).
    pub flags: u32,
    pub _pad: u32,
    /// Path string from openat (may be relative or empty).
    pub path: [u8; MAX_FD_PATH],
}

impl Default for FdInfo {
    /// The all-zero value.
    fn default() -> (r: Self)
        ensures
            r.is_zero(),
    {
        FdInfo {
            pid: 0,
            fd: 0,
            open_time_ns: 0,
            inode: 0,
            flags: 0,
            _pad: 0,
            path: [0u8; MAX_FD_PATH],
        }
    }
}

impl FdInfo {
    /// Every field of `self` is zero.
    pub open spec fn is_zero(self) -> bool {
        &&& self.pid == 0
        &&& self.fd == 0
        &&& self.open_time_ns == 0
        &&& self.inode == 0
        &&& self.flags == 0
        &&& self._pad == 0
        &&& forall|i: int| 0 <= i < 256 ==> self.path@[i] == 0
    }

    /// `self` is the value whose 288-byte layout starts at `off` in `s`.
    pub open spec fn stored_at(self, s: Seq<u8>, off: int) -> bool {
        &&& self.pid == le_u32(s, off + 0)
        &&& self.fd == le_u32(s, off + 4)
        &&& self.open_time_ns == le_u64(s, off + 8)
        &&& self.inode == le_u64(s, off + 16)
        &&& self.flags == le_u32(s, off + 24)
        &&& self._pad == le_u32(s, off + 28)
        &&& self.path@ == s.subrange(off + 32, off + 288)
    }

    /// Decodes the value whose layout starts at `off` in `b`.
    pub fn read_at(b: &[u8], off: usize) -> (r: Self)
        requires
            off + 288 <= b@.len(),
        ensures
            r.stored_at(b@, off as int),
    {
        let n = b.len();
        let pid = read_u32(b, off + 0);
        let fd = read_u32(b, off + 4);
        let open_time_ns = read_u64(b, off + 8);
        let inode = read_u64(b, off + 16);
        let flags = read_u32(b, off + 24);
        let _pad = read_u32(b, off + 28);
        let path: [u8; MAX_FD_PATH] = read_array(b, off + 32);
        FdInfo { pid, fd, open_time_ns, inode, flags, _pad, path }
    }
}

impl SharedLayout for FdInfo {
    open spec fn spec_size() -> nat {
        FD_INFO_SIZE as nat
    }

    open spec fn stored_in(self, s: Seq<u8>) -> bool {
        self.stored_at(s, 0)
    }

    fn size() -> (n: usize) {
        FD_INFO_SIZE
    }

    fn decode(b: &[u8]) -> (r: Self) {
        Self::read_at(b, 0)
    }
}

/// Socket information gathered by the socket iterators.
#[derive(Clone, Copy)]
pub struct SockInfo {
    pub inode: u64,
    /// AF_INET=2, AF_INET6=10, AF_UNIX=1
    pub family: u32,
    /// SOCK_STREAM=1, SOCK_DGRAM=2
    pub sock_type: u32,
    /// IPPROTO_TCP=6, IPPROTO_UDP=17
    pub protocol: u8,
    /// TCP_ESTABLISHED=1, TCP_LISTEN=10, etc.
    pub state: u8,
    pub _pad: u16,
    pub uid: u32,
    pub local_port: u32,
    pub remote_port: u32,
    pub local_addr4: u32,
    pub remote_addr4: u32,
    pub local_addr6: [u8; 16],
    pub remote_addr6: [u8; 16],
}

impl Default for SockInfo {
    /// The all-zero value.
    fn default() -> (r: Self)
        ensures
            r.is_zero(),
    {
        SockInfo {
            inode: 0,
            family: 0,
            sock_type: 0,
            protocol: 0,
            state: 0,
            _pad: 0,
            uid: 0,
            local_port: 0,
            remote_port: 0,
            local_addr4: 0,
            remote_addr4: 0,
            local_addr6: [0u8; 16],
            remote_addr6: [0u8; 16],
        }
    }
}

impl SockInfo {
    /// Every field of `self` is zero.
    pub open spec fn is_zero(self) -> bool {
        &&& self.inode == 0
        &&& self.family == 0
        &&& self.sock_type == 0
        &&& self.protocol == 0
        &&& self.state == 0
        &&& self._pad == 0
        &&& self.uid == 0
        &&& self.local_port == 0
        &&& self.remote_port == 0
        &&& self.local_addr4 == 0
        &&& self.remote_addr4 == 0
        &&& forall|i: int| 0 <= i < 16 ==> self.local_addr6@[i] == 0
        &&& forall|i: int| 0 <= i < 16 ==> self.remote_addr6@[i] == 0
    }

    /// `self` is the value whose 72-byte layout starts at `off` in `s`.
    pub open spec fn stored_at(self, s: Seq<u8>, off: int) -> bool {
        &&& self.inode == le_u64(s, off + 0)
        &&& self.family == le_u32(s, off + 8)
        &&& self.sock_type == le_u32(s, off + 12)
        &&& self.protocol == s[off + 16]
        &&& self.state == s[off + 17]
        &&& self._pad == le_u16(s, off + 18)
        &&& self.uid == le_u32(s, off + 20)
        &&& self.local_port == le_u32(s, off + 24)
        &&& self.remote_port == le_u32(s, off + 28)
        &&& self.local_addr4 == le_u32(s, off + 32)
        &&& self.remote_addr4 == le_u32(s, off + 36)
        &&& self.local_addr6@ == s.subrange(off + 40, off + 56)
        &&& self.remote_addr6@ == s.subrange(off + 56, off + 72)
    }

    /// Decodes the value whose layout starts at `off` in `b`.
    pub fn read_at(b: &[u8], off: usize) -> (r: Self)
        requires
            off + 72 <= b@.len(),
        ensures
            r.stored_at(b@, off as int),
    {
        let n = b.len();
        let inode = read_u64(b, off + 0);
        let family = read_u32(b, off + 8);
        let sock_type = read_u32(b, off + 12);
        let protocol = b[off + 16];
        let state = b[off + 17];
        let _pad = read_u16(b, off + 18);
        let uid = read_u32(b, off + 20);
        let local_port = read_u32(b, off + 24);
        let remote_port = read_u32(b, off + 28);
        let local_addr4 = read_u32(b, off + 32);
        let remote_addr4 = read_u32(b, off + 36);
        let local_addr6: [u8; 16] = read_array(b, off + 40);
        let remote_addr6: [u8; 16] = read_array(b, off + 56);
        SockInfo { inode, family, sock_type, protocol, state, _pad, uid, local_port, remote_port, local_addr4, remote_addr4, local_addr6, remote_addr6 }
    }
}

impl SharedLayout for SockInfo {
    open spec fn spec_size() -> nat {
        SOCK_INFO_SIZE as nat
    }

    open spec fn stored_in(self, s: Seq<u8>) -> bool {
        self.stored_at(s, 0)
    }

    fn size() -> (n: usize) {
        SOCK_INFO_SIZE
    }

    fn decode(b: &[u8]) -> (r: Self) {
        Self::read_at(b, 0)
    }
}

/// The 128 bytes of `x` in its `#[repr(C)]` layout: its fields in the order
/// they are declared, integers least significant byte first.
pub open spec fn mem_data_bytes(x: MemData) -> Seq<u8> {
    u64_bytes(x.seq)
        + u64_bytes(x.timestamp_ns)
        + u64_bytes(x.total_bytes)
        + u64_bytes(x.free_bytes)
        + u64_bytes(x.available_bytes)
        + u64_bytes(x.buffers_bytes)
        + u64_bytes(x.cached_bytes)
        + u64_bytes(x.swap_total_bytes)
        + u64_bytes(x.swap_free_bytes)
        + u64_bytes(x.active_bytes)
        + u64_bytes(x.inactive_bytes)
        + u64_bytes(x.slab_reclaimable_bytes)
        + u64_bytes(x.slab_unreclaimable_bytes)
        + u64_bytes(x.dirty_bytes)
        + u64_bytes(x.writeback_bytes)
        + u64_bytes(x.shmem_bytes)
}

/// Decoding inverts the `#[repr(C)]` encoding of a [`MemData`]: bytes that hold
/// `x` written field by field in declaration order are read as `x`, wherever
/// in a buffer they stand.
#[verifier::spinoff_prover]
#[verifier::rlimit(100)]
pub proof fn law_mem_data_layout(x: MemData, s: Seq<u8>, off: int)
    requires
        0 <= off,
        off + 128 <= s.len(),
        s.subrange(off, off + 128) == mem_data_bytes(x),
    ensures
        x.stored_at(s, off),
{
    let e = mem_data_bytes(x);
    assert(e.len() == 128);
    assert(le_u64(s, off + 0) == x.seq) by {
        assert(e.subrange(0, 8) =~= u64_bytes(x.seq));
        lemma_block_in(s, off, e, 0, u64_bytes(x.seq));
        lemma_read_u64_bytes(s, off + 0, x.seq);
    }
    assert(le_u64(s, off + 8) == x.timestamp_ns) by {
        assert(e.subrange(8, 16) =~= u64_bytes(x.timestamp_ns));
        lemma_block_in(s, off, e, 8, u64_bytes(x.timestamp_ns));
        lemma_read_u64_bytes(s, off + 8, x.timestamp_ns);
    }
    assert(le_u64(s, off + 16) == x.total_bytes) by {
        assert(e.subrange(16, 24) =~= u64_bytes(x.total_bytes));
        lemma_block_in(s, off, e, 16, u64_bytes(x.total_bytes));
        lemma_read_u64_bytes(s, off + 16, x.total_bytes);
    }
    assert(le_u64(s, off + 24) == x.free_bytes) by {
        assert(e.subrange(24, 32) =~= u64_bytes(x.free_bytes));
        lemma_block_in(s, off, e, 24, u64_bytes(x.free_bytes));
        lemma_read_u64_bytes(s, off + 24, x.free_bytes);
    }
    assert(le_u64(s, off + 32) == x.available_bytes) by {
        assert(e.subrange(32, 40) =~= u64_bytes(x.available_bytes));
        lemma_block_in(s, off, e, 32, u64_bytes(x.available_bytes));
        lemma_read_u64_bytes(s, off + 32, x.available_bytes);
    }
    assert(le_u64(s, off + 40) == x.buffers_bytes) by {
        assert(e.subrange(40, 48) =~= u64_bytes(x.buffers_bytes));
        lemma_block_in(s, off, e, 40, u64_bytes(x.buffers_bytes));
        lemma_read_u64_bytes(s, off + 40, x.buffers_bytes);
    }
    assert(le_u64(s, off + 48) == x.cached_bytes) by {
        assert(e.subrange(48, 56) =~= u64_bytes(x.cached_bytes));
        lemma_block_in(s, off, e, 48, u64_bytes(x.cached_bytes));
        lemma_read_u64_bytes(s, off + 48, x.cached_bytes);
    }
    assert(le_u64(s, off + 56) == x.swap_total_bytes) by {
        assert(e.subrange(56, 64) =~= u64_bytes(x.swap_total_bytes));
        lemma_block_in(s, off, e, 56, u64_bytes(x.swap_total_bytes));
        lemma_read_u64_bytes(s, off + 56, x.swap_total_bytes);
    }
    assert(le_u64(s, off + 64) == x.swap_free_bytes) by {
        assert(e.subrange(64, 72) =~= u64_bytes(x.swap_free_bytes));
        lemma_block_in(s, off, e, 64, u64_bytes(x.swap_free_bytes));
        lemma_read_u64_bytes(s, off + 64, x.swap_free_bytes);
    }
    assert(le_u64(s, off + 72) == x.active_bytes) by {
        assert(e.subrange(72, 80) =~= u64_bytes(x.active_bytes));
        lemma_block_in(s, off, e, 72, u64_bytes(x.active_bytes));
        lemma_read_u64_bytes(s, off + 72, x.active_bytes);
    }
    assert(le_u64(s, off + 80) == x.inactive_bytes) by {
        assert(e.subrange(80, 88) =~= u64_bytes(x.inactive_bytes));
        lemma_block_in(s, off, e, 80, u64_bytes(x.inactive_bytes));
        lemma_read_u64_bytes(s, off + 80, x.inactive_bytes);
    }
    assert(le_u64(s, off + 88) == x.slab_reclaimable_bytes) by {
        assert(e.subrange(88, 96) =~= u64_bytes(x.slab_reclaimable_bytes));
        lemma_block_in(s, off, e, 88, u64_bytes(x.slab_reclaimable_bytes));
        lemma_read_u64_bytes(s, off + 88, x.slab_reclaimable_bytes);
    }
    assert(le_u64(s, off + 96) == x.slab_unreclaimable_bytes) by {
        assert(e.subrange(96, 104) =~= u64_bytes(x.slab_unreclaimable_bytes));
        lemma_block_in(s, off, e, 96, u64_bytes(x.slab_unreclaimable_bytes));
        lemma_read_u64_bytes(s, off + 96, x.slab_unreclaimable_bytes);
    }
    assert(le_u64(s, off + 104) == x.dirty_bytes) by {
        assert(e.subrange(104, 112) =~= u64_bytes(x.dirty_bytes));
        lemma_block_in(s, off, e, 104, u64_bytes(x.dirty_bytes));
        lemma_read_u64_bytes(s, off + 104, x.dirty_bytes);
    }
    assert(le_u64(s, off + 112) == x.writeback_bytes) by {
        assert(e.subrange(112, 120) =~= u64_bytes(x.writeback_bytes));
        lemma_block_in(s, off, e, 112, u64_bytes(x.writeback_bytes));
        lemma_read_u64_bytes(s, off + 112, x.writeback_bytes);
    }
    assert(le_u64(s, off + 120) == x.shmem_bytes) by {
        assert(e.subrange(120, 128) =~= u64_bytes(x.shmem_bytes));
        lemma_block_in(s, off, e, 120, u64_bytes(x.shmem_bytes));
        lemma_read_u64_bytes(s, off + 120, x.shmem_bytes);
    }
}

/// The 80 bytes of `x` in its `#[repr(C)]` layout: its fields in the order
/// they are declared, integers least significant byte first.
pub open spec fn net_dev_stats_bytes(x: NetDevStats) -> Seq<u8> {
    u64_bytes(x.rx_bytes)
        + u64_bytes(x.tx_bytes)
        + u64_bytes(x.rx_packets)
        + u64_bytes(x.tx_packets)
        + u64_bytes(x.rx_errors)
        + u64_bytes(x.tx_errors)
        + u64_bytes(x.rx_dropped)
        + u64_bytes(x.tx_dropped)
        + x.name@
}

/// Decoding inverts the `#[repr(C)]` encoding of a [`NetDevStats`]: bytes that hold
/// `x` written field by field in declaration order are read as `x`, wherever
/// in a buffer they stand.
#[verifier::spinoff_prover]
#[verifier::rlimit(100)]
pub proof fn law_net_dev_stats_layout(x: NetDevStats, s: Seq<u8>, off: int)
    requires
        0 <= off,
        off + 80 <= s.len(),
        s.subrange(off, off + 80) == net_dev_stats_bytes(x),
    ensures
        x.stored_at(s, off),
{
    let e = net_dev_stats_bytes(x);
    assert(e.len() == 80);
    assert(le_u64(s, off + 0) == x.rx_bytes) by {
        assert(e.subrange(0, 8) =~= u64_bytes(x.rx_bytes));
        lemma_block_in(s, off, e, 0, u64_bytes(x.rx_bytes));
        lemma_read_u64_bytes(s, off + 0, x.rx_bytes);
    }
    assert(le_u64(s, off + 8) == x.tx_bytes) by {
        assert(e.subrange(8, 16) =~= u64_bytes(x.tx_bytes));
        lemma_block_in(s, off, e, 8, u64_bytes(x.tx_bytes));
        lemma_read_u64_bytes(s, off + 8, x.tx_bytes);
    }
    assert(le_u64(s, off + 16) == x.rx_packets) by {
        assert(e.subrange(16, 24) =~= u64_bytes(x.rx_packets));
        lemma_block_in(s, off, e, 16, u64_bytes(x.rx_packets));
        lemma_read_u64_bytes(s, off + 16, x.rx_packets);
    }
    assert(le_u64(s, off + 24) == x.tx_packets) by {
        assert(e.subrange(24, 32) =~= u64_bytes(x.tx_packets));
        lemma_block_in(s, off, e, 24, u64_bytes(x.tx_packets));
        lemma_read_u64_bytes(s, off + 24, x.tx_packets);
    }
    assert(le_u64(s, off + 32) == x.rx_errors) by {
        assert(e.subrange(32, 40) =~= u64_bytes(x.rx_errors));
        lemma_block_in(s, off, e, 32, u64_bytes(x.rx_errors));
        lemma_read_u64_bytes(s, off + 32, x.rx_errors);
    }
    assert(le_u64(s, off + 40) == x.tx_errors) by {
        assert(e.subrange(40, 48) =~= u64_bytes(x.tx_errors));
        lemma_block_in(s, off, e, 40, u64_bytes(x.tx_errors));
        lemma_read_u64_bytes(s, off + 40, x.tx_errors);
    }
    assert(le_u64(s, off + 48) == x.rx_dropped) by {
        assert(e.subrange(48, 56) =~= u64_bytes(x.rx_dropped));
        lemma_block_in(s, off, e, 48, u64_bytes(x.rx_dropped));
        lemma_read_u64_bytes(s, off + 48, x.rx_dropped);
    }
    assert(le_u64(s, off + 56) == x.tx_dropped) by {
        assert(e.subrange(56, 64) =~= u64_bytes(x.tx_dropped));
        lemma_block_in(s, off, e, 56, u64_bytes(x.tx_dropped));
        lemma_read_u64_bytes(s, off + 56, x.tx_dropped);
    }
    assert(s.subrange(off + 64, off + 80) == x.name@) by {
        assert(e.subrange(64, 80) =~= x.name@);
        lemma_block_in(s, off, e, 64, x.name@);
    }
}

/// The 96 bytes of `x` in its `#[repr(C)]` layout: its fields in the order
/// they are declared, integers least significant byte first.
pub open spec fn disk_stats_bytes(x: DiskStats) -> Seq<u8> {
    u64_bytes(x.read_ios)
        + u64_bytes(x.write_ios)
        + u64_bytes(x.read_sectors)
        + u64_bytes(x.write_sectors)
        + u64_bytes(x.read_ns)
        + u64_bytes(x.write_ns)
        + u64_bytes(x.io_ticks_ns)
        + u32_bytes(x.major)
        + u32_bytes(x.minor)
        + x.name@
}

/// Decoding inverts the `#[repr(C)]` encoding of a [`DiskStats`]: bytes that hold
/// `x` written field by field in declaration order are read as `x`, wherever
/// in a buffer they stand.
#[verifier::spinoff_prover]
#[verifier::rlimit(100)]
pub proof fn law_disk_stats_layout(x: DiskStats, s: Seq<u8>, off: int)
    requires
        0 <= off,
        off + 96 <= s.len(),
        s.subrange(off, off + 96) == disk_stats_bytes(x),
    ensures
        x.stored_at(s, off),
{
    let e = disk_stats_bytes(x);
    assert(e.len() == 96);
    assert(le_u64(s, off + 0) == x.read_ios) by {
        assert(e.subrange(0, 8) =~= u64_bytes(x.read_ios));
        lemma_block_in(s, off, e, 0, u64_bytes(x.read_ios));
        lemma_read_u64_bytes(s, off + 0, x.read_ios);
    }
    assert(le_u64(s, off + 8) == x.write_ios) by {
        assert(e.subrange(8, 16) =~= u64_bytes(x.write_ios));
        lemma_block_in(s, off, e, 8, u64_bytes(x.write_ios));
        lemma_read_u64_bytes(s, off + 8, x.write_ios);
    }
    assert(le_u64(s, off + 16) == x.read_sectors) by {
        assert(e.subrange(16, 24) =~= u64_bytes(x.read_sectors));
        lemma_block_in(s, off, e, 16, u64_bytes(x.read_sectors));
        lemma_read_u64_bytes(s, off + 16, x.read_sectors);
    }
    assert(le_u64(s, off + 24) == x.write_sectors) by {
        assert(e.subrange(24, 32) =~= u64_bytes(x.write_sectors));
        lemma_block_in(s, off, e, 24, u64_bytes(x.write_sectors));
        lemma_read_u64_bytes(s, off + 24, x.write_sectors);
    }
    assert(le_u64(s, off + 32) == x.read_ns) by {
        assert(e.subrange(32, 40) =~= u64_bytes(x.read_ns));
        lemma_block_in(s, off, e, 32, u64_bytes(x.read_ns));
        lemma_read_u64_bytes(s, off + 32, x.read_ns);
    }
    assert(le_u64(s, off + 40) == x.write_ns) by {
        assert(e.subrange(40, 48) =~= u64_bytes(x.write_ns));
        lemma_block_in(s, off, e, 40, u64_bytes(x.write_ns));
        lemma_read_u64_bytes(s, off + 40, x.write_ns);
    }
    assert(le_u64(s, off + 48) == x.io_ticks_ns) by {
        assert(e.subrange(48, 56) =~= u64_bytes(x.io_ticks_ns));
        lemma_block_in(s, off, e, 48, u64_bytes(x.io_ticks_ns));
        lemma_read_u64_bytes(s, off + 48, x.io_ticks_ns);
    }
    assert(le_u32(s, off + 56) == x.major) by {
        assert(e.subrange(56, 60) =~= u32_bytes(x.major));
        lemma_block_in(s, off, e, 56, u32_bytes(x.major));
        lemma_read_u32_bytes(s, off + 56, x.major);
    }
    assert(le_u32(s, off + 60) == x.minor) by {
        assert(e.subrange(60, 64) =~= u32_bytes(x.minor));
        lemma_block_in(s, off, e, 60, u32_bytes(x.minor));
        lemma_read_u32_bytes(s, off + 60, x.minor);
    }
    assert(s.subrange(off + 64, off + 96) == x.name@) by {
        assert(e.subrange(64, 96) =~= x.name@);
        lemma_block_in(s, off, e, 64, x.name@);
    }
}

/// The 32 bytes of `x` in its `#[repr(C)]` layout: its fields in the order
/// they are declared, integers least significant byte first.
pub open spec fn thermal_zone_bytes(x: ThermalZone) -> Seq<u8> {
    i32_bytes(x.temp_millicelsius)
        + u32_bytes(x._pad)
        + x.zone_type@
        + x._pad2@
}

/// Decoding inverts the `#[repr(C)]` encoding of a [`ThermalZone`]: bytes that hold
/// `x` written field by field in declaration order are read as `x`, wherever
/// in a buffer they stand.
#[verifier::spinoff_prover]
#[verifier::rlimit(100)]
pub proof fn law_thermal_zone_layout(x: ThermalZone, s: Seq<u8>, off: int)
    requires
        0 <= off,
        off + 32 <= s.len(),
        s.subrange(off, off + 32) == thermal_zone_bytes(x),
    ensures
        x.stored_at(s, off),
{
    let e = thermal_zone_bytes(x);
    assert(e.len() == 32);
    assert(le_i32(s, off + 0) == x.temp_millicelsius) by {
        assert(e.subrange(0, 4) =~= i32_bytes(x.temp_millicelsius));
        lemma_block_in(s, off, e, 0, i32_bytes(x.temp_millicelsius));
        lemma_read_i32_bytes(s, off + 0, x.temp_millicelsius);
    }
    assert(le_u32(s, off + 4) == x._pad) by {
        assert(e.subrange(4, 8) =~= u32_bytes(x._pad));
        lemma_block_in(s, off, e, 4, u32_bytes(x._pad));
        lemma_read_u32_bytes(s, off + 4, x._pad);
    }
    assert(s.subrange(off + 8, off + 28) == x.zone_type@) by {
        assert(e.subrange(8, 28) =~= x.zone_type@);
        lemma_block_in(s, off, e, 8, x.zone_type@);
    }
    assert(s.subrange(off + 28, off + 32) == x._pad2@) by {
        assert(e.subrange(28, 32) =~= x._pad2@);
        lemma_block_in(s, off, e, 28, x._pad2@);
    }
}

/// The 112 bytes of `x` in its `#[repr(C)]` layout: its fields in the order
/// they are declared, integers least significant byte first.
pub open spec fn irq_stats_bytes(x: IrqStats) -> Seq<u8> {
    u32_bytes(x.irq)
        + u32_bytes(x._pad)
        + u64_bytes(x.total_count)
        + x.chip_name@
        + x.action_name@
}

/// Decoding inverts the `#[repr(C)]` encoding of a [`IrqStats`]: bytes that hold
/// `x` written field by field in declaration order are read as `x`, wherever
/// in a buffer they stand.
#[verifier::spinoff_prover]
#[verifier::rlimit(100)]
pub proof fn law_irq_stats_layout(x: IrqStats, s: Seq<u8>, off: int)
    requires
        0 <= off,
        off + 112 <= s.len(),
        s.subrange(off, off + 112) == irq_stats_bytes(x),
    ensures
        x.stored_at(s, off),
{
    let e = irq_stats_bytes(x);
    assert(e.len() == 112);
    assert(le_u32(s, off + 0) == x.irq) by {
        assert(e.subrange(0, 4) =~= u32_bytes(x.irq));
        lemma_block_in(s, off, e, 0, u32_bytes(x.irq));
        lemma_read_u32_bytes(s, off + 0, x.irq);
    }
    assert(le_u32(s, off + 4) == x._pad) by {
        assert(e.subrange(4, 8) =~= u32_bytes(x._pad));
        lemma_block_in(s, off, e, 4, u32_bytes(x._pad));
        lemma_read_u32_bytes(s, off + 4, x._pad);
    }
    assert(le_u64(s, off + 8) == x.total_count) by {
        assert(e.subrange(8, 16) =~= u64_bytes(x.total_count));
        lemma_block_in(s, off, e, 8, u64_bytes(x.total_count));
        lemma_read_u64_bytes(s, off + 8, x.total_count);
    }
    assert(s.subrange(off + 16, off + 48) == x.chip_name@) by {
        assert(e.subrange(16, 48) =~= x.chip_name@);
        lemma_block_in(s, off, e, 16, x.chip_name@);
    }
    assert(s.subrange(off + 48, off + 112) == x.action_name@) by {
        assert(e.subrange(48, 112) =~= x.action_name@);
        lemma_block_in(s, off, e, 48, x.action_name@);
    }
}

/// The 168 bytes of `x` in its `#[repr(C)]` layout: its fields in the order
/// they are declared, integers least significant byte first.
pub open spec fn proc_stats_bytes(x: ProcStats) -> Seq<u8> {
    u32_bytes(x.pid)
        + u32_bytes(x.tgid)
        + u32_bytes(x.ppid)
        + seq![x.state]
        + x._pad1@
        + u32_bytes(x.uid)
        + u32_bytes(x.nr_threads)
        + x.comm@
        + u64_bytes(x.utime_ns)
        + u64_bytes(x.stime_ns)
        + u64_bytes(x.cutime_ns)
        + u64_bytes(x.cstime_ns)
        + i32_bytes(x.nice)
        + u32_bytes(x.policy)
        + u32_bytes(x.last_cpu)
        + u32_bytes(x.rt_priority)
        + u64_bytes(x.last_seen_ns)
        + u64_bytes(x.vol_ctxsw)
        + u64_bytes(x.invol_ctxsw)
        + u64_bytes(x.rss_bytes)
        + u64_bytes(x.vsize_bytes)
        + u64_bytes(x.shared_bytes)
        + u64_bytes(x.read_bytes)
        + u64_bytes(x.write_bytes)
        + u64_bytes(x.cpu_runtime_ns)
        + u64_bytes(x.start_time_ns)
}

/// Decoding inverts the `#[repr(C)]` encoding of a [`ProcStats`]: bytes that hold
/// `x` written field by field in declaration order are read as `x`, wherever
/// in a buffer they stand.
#[verifier::spinoff_prover]
#[verifier::rlimit(100)]
pub proof fn law_proc_stats_layout(x: ProcStats, s: Seq<u8>, off: int)
    requires
        0 <= off,
        off + 168 <= s.len(),
        s.subrange(off, off + 168) == proc_stats_bytes(x),
    ensures
        x.stored_at(s, off),
{
    let e = proc_stats_bytes(x);
    assert(e.len() == 168);
    assert(le_u32(s, off + 0) == x.pid) by {
        assert(e.subrange(0, 4) =~= u32_bytes(x.pid));
        lemma_block_in(s, off, e, 0, u32_bytes(x.pid));
        lemma_read_u32_bytes(s, off + 0, x.pid);
    }
    assert(le_u32(s, off + 4) == x.tgid) by {
        assert(e.subrange(4, 8) =~= u32_bytes(x.tgid));
        lemma_block_in(s, off, e, 4, u32_bytes(x.tgid));
        lemma_read_u32_bytes(s, off + 4, x.tgid);
    }
    assert(le_u32(s, off + 8) == x.ppid) by {
        assert(e.subrange(8, 12) =~= u32_bytes(x.ppid));
        lemma_block_in(s, off, e, 8, u32_bytes(x.ppid));
        lemma_read_u32_bytes(s, off + 8, x.ppid);
    }
    assert(s[off + 12] == x.state) by {
        assert(e.subrange(12, 13) =~= seq![x.state]);
        lemma_block_in(s, off, e, 12, seq![x.state]);
        assert(s[off + 12 + 0] == seq![x.state][0]);
    }
    assert(s.subrange(off + 13, off + 16) == x._pad1@) by {
        assert(e.subrange(13, 16) =~= x._pad1@);
        lemma_block_in(s, off, e, 13, x._pad1@);
    }
    assert(le_u32(s, off + 16) == x.uid) by {
        assert(e.subrange(16, 20) =~= u32_bytes(x.uid));
        lemma_block_in(s, off, e, 16, u32_bytes(x.uid));
        lemma_read_u32_bytes(s, off + 16, x.uid);
    }
    assert(le_u32(s, off + 20) == x.nr_threads) by {
        assert(e.subrange(20, 24) =~= u32_bytes(x.nr_threads));
        lemma_block_in(s, off, e, 20, u32_bytes(x.nr_threads));
        lemma_read_u32_bytes(s, off + 20, x.nr_threads);
    }
    assert(s.subrange(off + 24, off + 40) == x.comm@) by {
        assert(e.subrange(24, 40) =~= x.comm@);
        lemma_block_in(s, off, e, 24, x.comm@);
    }
    assert(le_u64(s, off + 40) == x.utime_ns) by {
        assert(e.subrange(40, 48) =~= u64_bytes(x.utime_ns));
        lemma_block_in(s, off, e, 40, u64_bytes(x.utime_ns));
        lemma_read_u64_bytes(s, off + 40, x.utime_ns);
    }
    assert(le_u64(s, off + 48) == x.stime_ns) by {
        assert(e.subrange(48, 56) =~= u64_bytes(x.stime_ns));
        lemma_block_in(s, off, e, 48, u64_bytes(x.stime_ns));
        lemma_read_u64_bytes(s, off + 48, x.stime_ns);
    }
    assert(le_u64(s, off + 56) == x.cutime_ns) by {
        assert(e.subrange(56, 64) =~= u64_bytes(x.cutime_ns));
        lemma_block_in(s, off, e, 56, u64_bytes(x.cutime_ns));
        lemma_read_u64_bytes(s, off + 56, x.cutime_ns);
    }
    assert(le_u64(s, off + 64) == x.cstime_ns) by {
        assert(e.subrange(64, 72) =~= u64_bytes(x.cstime_ns));
        lemma_block_in(s, off, e, 64, u64_bytes(x.cstime_ns));
        lemma_read_u64_bytes(s, off + 64, x.cstime_ns);
    }
    assert(le_i32(s, off + 72) == x.nice) by {
        assert(e.subrange(72, 76) =~= i32_bytes(x.nice));
        lemma_block_in(s, off, e, 72, i32_bytes(x.nice));
        lemma_read_i32_bytes(s, off + 72, x.nice);
    }
    assert(le_u32(s, off + 76) == x.policy) by {
        assert(e.subrange(76, 80) =~= u32_bytes(x.policy));
        lemma_block_in(s, off, e, 76, u32_bytes(x.policy));
        lemma_read_u32_bytes(s, off + 76, x.policy);
    }
    assert(le_u32(s, off + 80) == x.last_cpu) by {
        assert(e.subrange(80, 84) =~= u32_bytes(x.last_cpu));
        lemma_block_in(s, off, e, 80, u32_bytes(x.last_cpu));
        lemma_read_u32_bytes(s, off + 80, x.last_cpu);
    }
    assert(le_u32(s, off + 84) == x.rt_priority) by {
        assert(e.subrange(84, 88) =~= u32_bytes(x.rt_priority));
        lemma_block_in(s, off, e, 84, u32_bytes(x.rt_priority));
        lemma_read_u32_bytes(s, off + 84, x.rt_priority);
    }
    assert(le_u64(s, off + 88) == x.last_seen_ns) by {
        assert(e.subrange(88, 96) =~= u64_bytes(x.last_seen_ns));
        lemma_block_in(s, off, e, 88, u64_bytes(x.last_seen_ns));
        lemma_read_u64_bytes(s, off + 88, x.last_seen_ns);
    }
    assert(le_u64(s, off + 96) == x.vol_ctxsw) by {
        assert(e.subrange(96, 104) =~= u64_bytes(x.vol_ctxsw));
        lemma_block_in(s, off, e, 96, u64_bytes(x.vol_ctxsw));
        lemma_read_u64_bytes(s, off + 96, x.vol_ctxsw);
    }
    assert(le_u64(s, off + 104) == x.invol_ctxsw) by {
        assert(e.subrange(104, 112) =~= u64_bytes(x.invol_ctxsw));
        lemma_block_in(s, off, e, 104, u64_bytes(x.invol_ctxsw));
        lemma_read_u64_bytes(s, off + 104, x.invol_ctxsw);
    }
    assert(le_u64(s, off + 112) == x.rss_bytes) by {
        assert(e.subrange(112, 120) =~= u64_bytes(x.rss_bytes));
        lemma_block_in(s, off, e, 112, u64_bytes(x.rss_bytes));
        lemma_read_u64_bytes(s, off + 112, x.rss_bytes);
    }
    assert(le_u64(s, off + 120) == x.vsize_bytes) by {
        assert(e.subrange(120, 128) =~= u64_bytes(x.vsize_bytes));
        lemma_block_in(s, off, e, 120, u64_bytes(x.vsize_bytes));
        lemma_read_u64_bytes(s, off + 120, x.vsize_bytes);
    }
    assert(le_u64(s, off + 128) == x.shared_bytes) by {
        assert(e.subrange(128, 136) =~= u64_bytes(x.shared_bytes));
        lemma_block_in(s, off, e, 128, u64_bytes(x.shared_bytes));
        lemma_read_u64_bytes(s, off + 128, x.shared_bytes);
    }
    assert(le_u64(s, off + 136) == x.read_bytes) by {
        assert(e.subrange(136, 144) =~= u64_bytes(x.read_bytes));
        lemma_block_in(s, off, e, 136, u64_bytes(x.read_bytes));
        lemma_read_u64_bytes(s, off + 136, x.read_bytes);
    }
    assert(le_u64(s, off + 144) == x.write_bytes) by {
        assert(e.subrange(144, 152) =~= u64_bytes(x.write_bytes));
        lemma_block_in(s, off, e, 144, u64_bytes(x.write_bytes));
        lemma_read_u64_bytes(s, off + 144, x.write_bytes);
    }
    assert(le_u64(s, off + 152) == x.cpu_runtime_ns) by {
        assert(e.subrange(152, 160) =~= u64_bytes(x.cpu_runtime_ns));
        lemma_block_in(s, off, e, 152, u64_bytes(x.cpu_runtime_ns));
        lemma_read_u64_bytes(s, off + 152, x.cpu_runtime_ns);
    }
    assert(le_u64(s, off + 160) == x.start_time_ns) by {
        assert(e.subrange(160, 168) =~= u64_bytes(x.start_time_ns));
        lemma_block_in(s, off, e, 160, u64_bytes(x.start_time_ns));
        lemma_read_u64_bytes(s, off + 160, x.start_time_ns);
    }
}

/// The 24 bytes of `x` in its `#[repr(C)]` layout: its fields in the order
/// they are declared, integers least significant byte first.
pub open spec fn proc_header_bytes(x: ProcHeader) -> Seq<u8> {
    u64_bytes(x.seq)
        + u64_bytes(x.timestamp_ns)
        + u32_bytes(x.nr_procs)
        + u32_bytes(x._pad)
}

/// Decoding inverts the `#[repr(C)]` encoding of a [`ProcHeader`]: bytes that hold
/// `x` written field by field in declaration order are read as `x`, wherever
/// in a buffer they stand.
#[verifier::spinoff_prover]
#[verifier::rlimit(100)]
pub proof fn law_proc_header_layout(x: ProcHeader, s: Seq<u8>, off: int)
    requires
        0 <= off,
        off + 24 <= s.len(),
        s.subrange(off, off + 24) == proc_header_bytes(x),
    ensures
        x.stored_at(s, off),
{
    let e = proc_header_bytes(x);
    assert(e.len() == 24);
    assert(le_u64(s, off + 0) == x.seq) by {
        assert(e.subrange(0, 8) =~= u64_bytes(x.seq));
        lemma_block_in(s, off, e, 0, u64_bytes(x.seq));
        lemma_read_u64_bytes(s, off + 0, x.seq);
    }
    assert(le_u64(s, off + 8) == x.timestamp_ns) by {
        assert(e.subrange(8, 16) =~= u64_bytes(x.timestamp_ns));
        lemma_block_in(s, off, e, 8, u64_bytes(x.timestamp_ns));
        lemma_read_u64_bytes(s, off + 8, x.timestamp_ns);
    }
    assert(le_u32(s, off + 16) == x.nr_procs) by {
        assert(e.subrange(16, 20) =~= u32_bytes(x.nr_procs));
        lemma_block_in(s, off, e, 16, u32_bytes(x.nr_procs));
        lemma_read_u32_bytes(s, off + 16, x.nr_procs);
    }
    assert(le_u32(s, off + 20) == x._pad) by {
        assert(e.subrange(20, 24) =~= u32_bytes(x._pad));
        lemma_block_in(s, off, e, 20, u32_bytes(x._pad));
        lemma_read_u32_bytes(s, off + 20, x._pad);
    }
}

/// The 8 bytes of `x` in its `#[repr(C)]` layout: its fields in the order
/// they are declared, integers least significant byte first.
pub open spec fn config_bytes(x: ProcfastConfig) -> Seq<u8> {
    u64_bytes(x.interval_ns)
}

/// Decoding inverts the `#[repr(C)]` encoding of a [`ProcfastConfig`]: bytes that hold
/// `x` written field by field in declaration order are read as `x`, wherever
/// in a buffer they stand.
#[verifier::spinoff_prover]
#[verifier::rlimit(100)]
pub proof fn law_config_layout(x: ProcfastConfig, s: Seq<u8>, off: int)
    requires
        0 <= off,
        off + 8 <= s.len(),
        s.subrange(off, off + 8) == config_bytes(x),
    ensures
        x.stored_at(s, off),
{
    let e = config_bytes(x);
    assert(e.len() == 8);
    assert(le_u64(s, off + 0) == x.interval_ns) by {
        assert(e.subrange(0, 8) =~= u64_bytes(x.interval_ns));
        lemma_block_in(s, off, e, 0, u64_bytes(x.interval_ns));
        lemma_read_u64_bytes(s, off + 0, x.interval_ns);
    }
}

/// The 288 bytes of `x` in its `#[repr(C)]` layout: its fields in the order
/// they are declared, integers least significant byte first.
pub open spec fn fd_info_bytes(x: FdInfo) -> Seq<u8> {
    u32_bytes(x.pid)
        + u32_bytes(x.fd)
        + u64_bytes(x.open_time_ns)
        + u64_bytes(x.inode)
        + u32_bytes(x.flags)
        + u32_bytes(x._pad)
        + x.path@
}

/// Decoding inverts the `#[repr(C)]` encoding of a [`FdInfo`]: bytes that hold
/// `x` written field by field in declaration order are read as `x`, wherever
/// in a buffer they stand.
#[verifier::spinoff_prover]
#[verifier::rlimit(100)]
pub proof fn law_fd_info_layout(x: FdInfo, s: Seq<u8>, off: int)
    requires
        0 <= off,
        off + 288 <= s.len(),
        s.subrange(off, off + 288) == fd_info_bytes(x),
    ensures
        x.stored_at(s, off),
{
    let e = fd_info_bytes(x);
    assert(e.len() == 288);
    assert(le_u32(s, off + 0) == x.pid) by {
        assert(e.subrange(0, 4) =~= u32_bytes(x.pid));
        lemma_block_in(s, off, e, 0, u32_bytes(x.pid));
        lemma_read_u32_bytes(s, off + 0, x.pid);
    }
    assert(le_u32(s, off + 4) == x.fd) by {
        assert(e.subrange(4, 8) =~= u32_bytes(x.fd));
        lemma_block_in(s, off, e, 4, u32_bytes(x.fd));
        lemma_read_u32_bytes(s, off + 4, x.fd);
    }
    assert(le_u64(s, off + 8) == x.open_time_ns) by {
        assert(e.subrange(8, 16) =~= u64_bytes(x.open_time_ns));
        lemma_block_in(s, off, e, 8, u64_bytes(x.open_time_ns));
        lemma_read_u64_bytes(s, off + 8, x.open_time_ns);
    }
    assert(le_u64(s, off + 16) == x.inode) by {
        assert(e.subrange(16, 24) =~= u64_bytes(x.inode));
        lemma_block_in(s, off, e, 16, u64_bytes(x.inode));
        lemma_read_u64_bytes(s, off + 16, x.inode);
    }
    assert(le_u32(s, off + 24) == x.flags) by {
        assert(e.subrange(24, 28) =~= u32_bytes(x.flags));
        lemma_block_in(s, off, e, 24, u32_bytes(x.flags));
        lemma_read_u32_bytes(s, off + 24, x.flags);
    }
    assert(le_u32(s, off + 28) == x._pad) by {
        assert(e.subrange(28, 32) =~= u32_bytes(x._pad));
        lemma_block_in(s, off, e, 28, u32_bytes(x._pad));
        lemma_read_u32_bytes(s, off + 28, x._pad);
    }
    assert(s.subrange(off + 32, off + 288) == x.path@) by {
        assert(e.subrange(32, 288) =~= x.path@);
        lemma_block_in(s, off, e, 32, x.path@);
    }
}

/// The 72 bytes of `x` in its `#[repr(C)]` layout: its fields in the order
/// they are declared, integers least significant byte first.
pub open spec fn sock_info_bytes(x: SockInfo) -> Seq<u8> {
    u64_bytes(x.inode)
        + u32_bytes(x.family)
        + u32_bytes(x.sock_type)
        + seq![x.protocol]
        + seq![x.state]
        + u16_bytes(x._pad)
        + u32_bytes(x.uid)
        + u32_bytes(x.local_port)
        + u32_bytes(x.remote_port)
        + u32_bytes(x.local_addr4)
        + u32_bytes(x.remote_addr4)
        + x.local_addr6@
        + x.remote_addr6@
}

/// Decoding inverts the `#[repr(C)]` encoding of a [`SockInfo`]: bytes that hold
/// `x` written field by field in declaration order are read as `x`, wherever
/// in a buffer they stand.
#[verifier::spinoff_prover]
#[verifier::rlimit(100)]
pub proof fn law_sock_info_layout(x: SockInfo, s: Seq<u8>, off: int)
    requires
        0 <= off,
        off + 72 <= s.len(),
        s.subrange(off, off + 72) == sock_info_bytes(x),
    ensures
        x.stored_at(s, off),
{
    let e = sock_info_bytes(x);
    assert(e.len() == 72);
    assert(le_u64(s, off + 0) == x.inode) by {
        assert(e.subrange(0, 8) =~= u64_bytes(x.inode));
        lemma_block_in(s, off, e, 0, u64_bytes(x.inode));
        lemma_read_u64_bytes(s, off + 0, x.inode);
    }
    assert(le_u32(s, off + 8) == x.family) by {
        assert(e.subrange(8, 12) =~= u32_bytes(x.family));
        lemma_block_in(s, off, e, 8, u32_bytes(x.family));
        lemma_read_u32_bytes(s, off + 8, x.family);
    }
    assert(le_u32(s, off + 12) == x.sock_type) by {
        assert(e.subrange(12, 16) =~= u32_bytes(x.sock_type));
        lemma_block_in(s, off, e, 12, u32_bytes(x.sock_type));
        lemma_read_u32_bytes(s, off + 12, x.sock_type);
    }
    assert(s[off + 16] == x.protocol) by {
        assert(e.subrange(16, 17) =~= seq![x.protocol]);
        lemma_block_in(s, off, e, 16, seq![x.protocol]);
        assert(s[off + 16 + 0] == seq![x.protocol][0]);
    }
    assert(s[off + 17] == x.state) by {
        assert(e.subrange(17, 18) =~= seq![x.state]);
        lemma_block_in(s, off, e, 17, seq![x.state]);
        assert(s[off + 17 + 0] == seq![x.state][0]);
    }
    assert(le_u16(s, off + 18) == x._pad) by {
        assert(e.subrange(18, 20) =~= u16_bytes(x._pad));
        lemma_block_in(s, off, e, 18, u16_bytes(x._pad));
        lemma_read_u16_bytes(s, off + 18, x._pad);
    }
    assert(le_u32(s, off + 20) == x.uid) by {
        assert(e.subrange(20, 24) =~= u32_bytes(x.uid));
        lemma_block_in(s, off, e, 20, u32_bytes(x.uid));
        lemma_read_u32_bytes(s, off + 20, x.uid);
    }
    assert(le_u32(s, off + 24) == x.local_port) by {
        assert(e.subrange(24, 28) =~= u32_bytes(x.local_port));
        lemma_block_in(s, off, e, 24, u32_bytes(x.local_port));
        lemma_read_u32_bytes(s, off + 24, x.local_port);
    }
    assert(le_u32(s, off + 28) == x.remote_port) by {
        assert(e.subrange(28, 32) =~= u32_bytes(x.remote_port));
        lemma_block_in(s, off, e, 28, u32_bytes(x.remote_port));
        lemma_read_u32_bytes(s, off + 28, x.remote_port);
    }
    assert(le_u32(s, off + 32) == x.local_addr4) by {
        assert(e.subrange(32, 36) =~= u32_bytes(x.local_addr4));
        lemma_block_in(s, off, e, 32, u32_bytes(x.local_addr4));
        lemma_read_u32_bytes(s, off + 32, x.local_addr4);
    }
    assert(le_u32(s, off + 36) == x.remote_addr4) by {
        assert(e.subrange(36, 40) =~= u32_bytes(x.remote_addr4));
        lemma_block_in(s, off, e, 36, u32_bytes(x.remote_addr4));
        lemma_read_u32_bytes(s, off + 36, x.remote_addr4);
    }
    assert(s.subrange(off + 40, off + 56) == x.local_addr6@) by {
        assert(e.subrange(40, 56) =~= x.local_addr6@);
        lemma_block_in(s, off, e, 40, x.local_addr6@);
    }
    assert(s.subrange(off + 56, off + 72) == x.remote_addr6@) by {
        assert(e.subrange(56, 72) =~= x.remote_addr6@);
        lemma_block_in(s, off, e, 56, x.remote_addr6@);
    }
}

/// The entries of `d` in the layout of a [`CpuStats`] each, in order.
pub open spec fn cpu_stats_entries(d: CpuData) -> Seq<u8> {
    d.per_cpu@.map_values(|x: CpuStats| cpu_stats_bytes(x)).flatten()
}

/// The 20584 bytes of `d` in its `#[repr(C)]` layout: the header fields in the
/// order they are declared, then each entry in its own layout, in order.
pub open spec fn cpu_data_bytes(d: CpuData) -> Seq<u8> {
    u64_bytes(d.seq) + u64_bytes(d.timestamp_ns) + u32_bytes(d.nr_cpus) + u32_bytes(d._pad) + cpu_stats_bytes(d.total) + cpu_stats_entries(d)
}

/// Decoding inverts the `#[repr(C)]` encoding of a [`CpuData`]: bytes that hold
/// `d` written header field by header field and then entry by entry are read
/// as `d`.
#[verifier::spinoff_prover]
#[verifier::rlimit(100)]
pub proof fn law_cpu_data_layout(d: CpuData, s: Seq<u8>, off: int)
    requires
        0 <= off,
        off + 20584 <= s.len(),
        s.subrange(off, off + 20584) == cpu_data_bytes(d),
    ensures
        d.stored_at(s, off),
{
    let e = cpu_data_bytes(d);
    let bs = d.per_cpu@.map_values(|x: CpuStats| cpu_stats_bytes(x));
    assert forall|k: int| 0 <= k < bs.len() implies (#[trigger] bs[k]).len() == 80 by {
        assert(bs[k] == cpu_stats_bytes(d.per_cpu@[k]));
    }
    lemma_flatten_uniform(bs, 80);
    assert(e.len() == 20584);
    assert(le_u64(s, off + 0) == d.seq) by {
        assert(e.subrange(0, 8) =~= u64_bytes(d.seq));
        lemma_block_in(s, off, e, 0, u64_bytes(d.seq));
        lemma_read_u64_bytes(s, off + 0, d.seq);
    }
    assert(le_u64(s, off + 8) == d.timestamp_ns) by {
        assert(e.subrange(8, 16) =~= u64_bytes(d.timestamp_ns));
        lemma_block_in(s, off, e, 8, u64_bytes(d.timestamp_ns));
        lemma_read_u64_bytes(s, off + 8, d.timestamp_ns);
    }
    assert(le_u32(s, off + 16) == d.nr_cpus) by {
        assert(e.subrange(16, 20) =~= u32_bytes(d.nr_cpus));
        lemma_block_in(s, off, e, 16, u32_bytes(d.nr_cpus));
        lemma_read_u32_bytes(s, off + 16, d.nr_cpus);
    }
    assert(le_u32(s, off + 20) == d._pad) by {
        assert(e.subrange(20, 24) =~= u32_bytes(d._pad));
        lemma_block_in(s, off, e, 20, u32_bytes(d._pad));
        lemma_read_u32_bytes(s, off + 20, d._pad);
    }
    assert(d.total.stored_at(s, off + 24)) by {
        assert(e.subrange(24, 104) =~= cpu_stats_bytes(d.total));
        lemma_block_in(s, off, e, 24, cpu_stats_bytes(d.total));
        law_cpu_stats_layout(d.total, s, off + 24);
    }
    assert(e.subrange(104, 104 + 80 * bs.len() as int) =~= bs.flatten());
    assert forall|i: int| 0 <= i < 256 implies (#[trigger] d.per_cpu@[i]).stored_at(s, off + 104 + 80 * i) by {
        lemma_entry_in(s, off, e, 104, bs, 80, i);
        assert(bs[i] == cpu_stats_bytes(d.per_cpu@[i]));
        law_cpu_stats_layout(d.per_cpu@[i], s, off + 104 + 80 * i);
    }
}

/// The entries of `d` in the layout of a [`NetDevStats`] each, in order.
pub open spec fn net_dev_stats_entries(d: NetData) -> Seq<u8> {
    d.devs@.map_values(|x: NetDevStats| net_dev_stats_bytes(x)).flatten()
}

/// The 2584 bytes of `d` in its `#[repr(C)]` layout: the header fields in the
/// order they are declared, then each entry in its own layout, in order.
pub open spec fn net_data_bytes(d: NetData) -> Seq<u8> {
    u64_bytes(d.seq) + u64_bytes(d.timestamp_ns) + u32_bytes(d.nr_devs) + u32_bytes(d._pad) + net_dev_stats_entries(d)
}

/// Decoding inverts the `#[repr(C)]` encoding of a [`NetData`]: bytes that hold
/// `d` written header field by header field and then entry by entry are read
/// as `d`.
#[verifier::spinoff_prover]
#[verifier::rlimit(100)]
pub proof fn law_net_data_layout(d: NetData, s: Seq<u8>, off: int)
    requires
        0 <= off,
        off + 2584 <= s.len(),
        s.subrange(off, off + 2584) == net_data_bytes(d),
    ensures
        d.stored_at(s, off),
{
    let e = net_data_bytes(d);
    let bs = d.devs@.map_values(|x: NetDevStats| net_dev_stats_bytes(x));
    assert forall|k: int| 0 <= k < bs.len() implies (#[trigger] bs[k]).len() == 80 by {
        assert(bs[k] == net_dev_stats_bytes(d.devs@[k]));
    }
    lemma_flatten_uniform(bs, 80);
    assert(e.len() == 2584);
    assert(le_u64(s, off + 0) == d.seq) by {
        assert(e.subrange(0, 8) =~= u64_bytes(d.seq));
        lemma_block_in(s, off, e, 0, u64_bytes(d.seq));
        lemma_read_u64_bytes(s, off + 0, d.seq);
    }
    assert(le_u64(s, off + 8) == d.timestamp_ns) by {
        assert(e.subrange(8, 16) =~= u64_bytes(d.timestamp_ns));
        lemma_block_in(s, off, e, 8, u64_bytes(d.timestamp_ns));
        lemma_read_u64_bytes(s, off + 8, d.timestamp_ns);
    }
    assert(le_u32(s, off + 16) == d.nr_devs) by {
        assert(e.subrange(16, 20) =~= u32_bytes(d.nr_devs));
        lemma_block_in(s, off, e, 16, u32_bytes(d.nr_devs));
        lemma_read_u32_bytes(s, off + 16, d.nr_devs);
    }
    assert(le_u32(s, off + 20) == d._pad) by {
        assert(e.subrange(20, 24) =~= u32_bytes(d._pad));
        lemma_block_in(s, off, e, 20, u32_bytes(d._pad));
        lemma_read_u32_bytes(s, off + 20, d._pad);
    }
    assert(e.subrange(24, 24 + 80 * bs.len() as int) =~= bs.flatten());
    assert forall|i: int| 0 <= i < 32 implies (#[trigger] d.devs@[i]).stored_at(s, off + 24 + 80 * i) by {
        lemma_entry_in(s, off, e, 24, bs, 80, i);
        assert(bs[i] == net_dev_stats_bytes(d.devs@[i]));
        law_net_dev_stats_layout(d.devs@[i], s, off + 24 + 80 * i);
    }
}

/// The entries of `d` in the layout of a [`DiskStats`] each, in order.
pub open spec fn disk_stats_entries(d: DiskData) -> Seq<u8> {
    d.disks@.map_values(|x: DiskStats| disk_stats_bytes(x)).flatten()
}

/// The 6168 bytes of `d` in its `#[repr(C)]` layout: the header fields in the
/// order they are declared, then each entry in its own layout, in order.
pub open spec fn disk_data_bytes(d: DiskData) -> Seq<u8> {
    u64_bytes(d.seq) + u64_bytes(d.timestamp_ns) + u32_bytes(d.nr_disks) + u32_bytes(d._pad) + disk_stats_entries(d)
}

/// Decoding inverts the `#[repr(C)]` encoding of a [`DiskData`]: bytes that hold
/// `d` written header field by header field and then entry by entry are read
/// as `d`.
#[verifier::spinoff_prover]
#[verifier::rlimit(100)]
pub proof fn law_disk_data_layout(d: DiskData, s: Seq<u8>, off: int)
    requires
        0 <= off,
        off + 6168 <= s.len(),
        s.subrange(off, off + 6168) == disk_data_bytes(d),
    ensures
        d.stored_at(s, off),
{
    let e = disk_data_bytes(d);
    let bs = d.disks@.map_values(|x: DiskStats| disk_stats_bytes(x));
    assert forall|k: int| 0 <= k < bs.len() implies (#[trigger] bs[k]).len() == 96 by {
        assert(bs[k] == disk_stats_bytes(d.disks@[k]));
    }
    lemma_flatten_uniform(bs, 96);
    assert(e.len() == 6168);
    assert(le_u64(s, off + 0) == d.seq) by {
        assert(e.subrange(0, 8) =~= u64_bytes(d.seq));
        lemma_block_in(s, off, e, 0, u64_bytes(d.seq));
        lemma_read_u64_bytes(s, off + 0, d.seq);
    }
    assert(le_u64(s, off + 8) == d.timestamp_ns) by {
        assert(e.subrange(8, 16) =~= u64_bytes(d.timestamp_ns));
        lemma_block_in(s, off, e, 8, u64_bytes(d.timestamp_ns));
        lemma_read_u64_bytes(s, off + 8, d.timestamp_ns);
    }
    assert(le_u32(s, off + 16) == d.nr_disks) by {
        assert(e.subrange(16, 20) =~= u32_bytes(d.nr_disks));
        lemma_block_in(s, off, e, 16, u32_bytes(d.nr_disks));
        lemma_read_u32_bytes(s, off + 16, d.nr_disks);
    }
    assert(le_u32(s, off + 20) == d._pad) by {
        assert(e.subrange(20, 24) =~= u32_bytes(d._pad));
        lemma_block_in(s, off, e, 20, u32_bytes(d._pad));
        lemma_read_u32_bytes(s, off + 20, d._pad);
    }
    assert(e.subrange(24, 24 + 96 * bs.len() as int) =~= bs.flatten());
    assert forall|i: int| 0 <= i < 64 implies (#[trigger] d.disks@[i]).stored_at(s, off + 24 + 96 * i) by {
        lemma_entry_in(s, off, e, 24, bs, 96, i);
        assert(bs[i] == disk_stats_bytes(d.disks@[i]));
        law_disk_stats_layout(d.disks@[i], s, off + 24 + 96 * i);
    }
}

/// The entries of `d` in the layout of a [`ThermalZone`] each, in order.
pub open spec fn thermal_zone_entries(d: ThermalData) -> Seq<u8> {
    d.zones@.map_values(|x: ThermalZone| thermal_zone_bytes(x)).flatten()
}

/// The 536 bytes of `d` in its `#[repr(C)]` layout: the header fields in the
/// order they are declared, then each entry in its own layout, in order.
pub open spec fn thermal_data_bytes(d: ThermalData) -> Seq<u8> {
    u64_bytes(d.seq) + u64_bytes(d.timestamp_ns) + u32_bytes(d.nr_zones) + u32_bytes(d._pad) + thermal_zone_entries(d)
}

/// Decoding inverts the `#[repr(C)]` encoding of a [`ThermalData`]: bytes that hold
/// `d` written header field by header field and then entry by entry are read
/// as `d`.
#[verifier::spinoff_prover]
#[verifier::rlimit(100)]
pub proof fn law_thermal_data_layout(d: ThermalData, s: Seq<u8>, off: int)
    requires
        0 <= off,
        off + 536 <= s.len(),
        s.subrange(off, off + 536) == thermal_data_bytes(d),
    ensures
        d.stored_at(s, off),
{
    let e = thermal_data_bytes(d);
    let bs = d.zones@.map_values(|x: ThermalZone| thermal_zone_bytes(x));
    assert forall|k: int| 0 <= k < bs.len() implies (#[trigger] bs[k]).len() == 32 by {
        assert(bs[k] == thermal_zone_bytes(d.zones@[k]));
    }
    lemma_flatten_uniform(bs, 32);
    assert(e.len() == 536);
    assert(le_u64(s, off + 0) == d.seq) by {
        assert(e.subrange(0, 8) =~= u64_bytes(d.seq));
        lemma_block_in(s, off, e, 0, u64_bytes(d.seq));
        lemma_read_u64_bytes(s, off + 0, d.seq);
    }
    assert(le_u64(s, off + 8) == d.timestamp_ns) by {
        assert(e.subrange(8, 16) =~= u64_bytes(d.timestamp_ns));
        lemma_block_in(s, off, e, 8, u64_bytes(d.timestamp_ns));
        lemma_read_u64_bytes(s, off + 8, d.timestamp_ns);
    }
    assert(le_u32(s, off + 16) == d.nr_zones) by {
        assert(e.subrange(16, 20) =~= u32_bytes(d.nr_zones));
        lemma_block_in(s, off, e, 16, u32_bytes(d.nr_zones));
        lemma_read_u32_bytes(s, off + 16, d.nr_zones);
    }
    assert(le_u32(s, off + 20) == d._pad) by {
        assert(e.subrange(20, 24) =~= u32_bytes(d._pad));
        lemma_block_in(s, off, e, 20, u32_bytes(d._pad));
        lemma_read_u32_bytes(s, off + 20, d._pad);
    }
    assert(e.subrange(24, 24 + 32 * bs.len() as int) =~= bs.flatten());
    assert forall|i: int| 0 <= i < 16 implies (#[trigger] d.zones@[i]).stored_at(s, off + 24 + 32 * i) by {
        lemma_entry_in(s, off, e, 24, bs, 32, i);
        assert(bs[i] == thermal_zone_bytes(d.zones@[i]));
        law_thermal_zone_layout(d.zones@[i], s, off + 24 + 32 * i);
    }
}

/// The entries of `d` in the layout of a [`IrqStats`] each, in order.
pub open spec fn irq_stats_entries(d: IrqData) -> Seq<u8> {
    d.irqs@.map_values(|x: IrqStats| irq_stats_bytes(x)).flatten()
}

/// The 57368 bytes of `d` in its `#[repr(C)]` layout: the header fields in the
/// order they are declared, then each entry in its own layout, in order.
pub open spec fn irq_data_bytes(d: IrqData) -> Seq<u8> {
    u64_bytes(d.seq) + u64_bytes(d.timestamp_ns) + u32_bytes(d.nr_irqs) + u32_bytes(d._pad) + irq_stats_entries(d)
}

/// Decoding inverts the `#[repr(C)]` encoding of a [`IrqData`]: bytes that hold
/// `d` written header field by header field and then entry by entry are read
/// as `d`.
#[verifier::spinoff_prover]
#[verifier::rlimit(100)]
pub proof fn law_irq_data_layout(d: IrqData, s: Seq<u8>, off: int)
    requires
        0 <= off,
        off + 57368 <= s.len(),
        s.subrange(off, off + 57368) == irq_data_bytes(d),
    ensures
        d.stored_at(s, off),
{
    let e = irq_data_bytes(d);
    let bs = d.irqs@.map_values(|x: IrqStats| irq_stats_bytes(x));
    assert forall|k: int| 0 <= k < bs.len() implies (#[trigger] bs[k]).len() == 112 by {
        assert(bs[k] == irq_stats_bytes(d.irqs@[k]));
    }
    lemma_flatten_uniform(bs, 112);
    assert(e.len() == 57368);
    assert(le_u64(s, off + 0) == d.seq) by {
        assert(e.subrange(0, 8) =~= u64_bytes(d.seq));
        lemma_block_in(s, off, e, 0, u64_bytes(d.seq));
        lemma_read_u64_bytes(s, off + 0, d.seq);
    }
    assert(le_u64(s, off + 8) == d.timestamp_ns) by {
        assert(e.subrange(8, 16) =~= u64_bytes(d.timestamp_ns));
        lemma_block_in(s, off, e, 8, u64_bytes(d.timestamp_ns));
        lemma_read_u64_bytes(s, off + 8, d.timestamp_ns);
    }
    assert(le_u32(s, off + 16) == d.nr_irqs) by {
        assert(e.subrange(16, 20) =~= u32_bytes(d.nr_irqs));
        lemma_block_in(s, off, e, 16, u32_bytes(d.nr_irqs));
        lemma_read_u32_bytes(s, off + 16, d.nr_irqs);
    }
    assert(le_u32(s, off + 20) == d._pad) by {
        assert(e.subrange(20, 24) =~= u32_bytes(d._pad));
        lemma_block_in(s, off, e, 20, u32_bytes(d._pad));
        lemma_read_u32_bytes(s, off + 20, d._pad);
    }
    assert(e.subrange(24, 24 + 112 * bs.len() as int) =~= bs.flatten());
    assert forall|i: int| 0 <= i < 512 implies (#[trigger] d.irqs@[i]).stored_at(s, off + 24 + 112 * i) by {
        lemma_entry_in(s, off, e, 24, bs, 112, i);
        assert(bs[i] == irq_stats_bytes(d.irqs@[i]));
        law_irq_stats_layout(d.irqs@[i], s, off + 24 + 112 * i);
    }
}

} // verus!
