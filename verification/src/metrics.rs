//! The exporter's Prometheus text for the counters it reports as whole
//! numbers: memory, network devices, disks and interrupt lines.

use crate::display::{bytes_to_str, decimal, field_text, push_decimal};
use crate::irq::SOFTIRQ_BASE;
use crate::text::same_text;
use crate::types::{
    DiskData, DiskStats, IrqData, IrqStats, MemData, NetData, NetDevStats, ProcHeader, ProcStats,
    MAX_DISKS, MAX_IRQS, MAX_NET_DEVS,
};
use vstd::prelude::*;
use vstd::string::StringExecFns;

verus! {

/// One sample line: the metric with its labels, a space, the value, a newline.
pub open spec fn sample(metric: Seq<char>, v: nat) -> Seq<char> {
    metric + " "@ + decimal(v) + "\n"@
}

/// Appends one sample line.
fn push_sample(out: &mut String, metric: &str, v: u64)
    ensures
        final(out)@ == old(out)@ + sample(metric@, v as nat),
{
    out.append(metric);
    out.append(" ");
    push_decimal(out, v);
    out.append("\n");
}

/// How many entries of a snapshot are reported: its count, at most the
/// capacity of the table.
pub open spec fn reported(count: u32, cap: usize) -> int {
    if (count as int) < (cap as int) {
        count as int
    } else {
        cap as int
    }
}

fn reported_count(count: u32, cap: usize) -> (r: usize)
    ensures
        r == reported(count, cap),
{
    if (count as u64) < (cap as u64) {
        count as usize
    } else {
        cap
    }
}

// ---------------------------------------------------------------------------
// Memory
// ---------------------------------------------------------------------------

/// The HELP and TYPE lines of the memory family.
pub const MEM_HEADER: &'static str = "# HELP procfast_memory_bytes Memory statistics in bytes.\n# TYPE procfast_memory_bytes gauge\n";

/// The memory family: total, free, available, buffers, shared, swap total
/// and swap free, in bytes.
pub open spec fn mem_metrics(s: MemData) -> Seq<char> {
    MEM_HEADER@ + sample("procfast_memory_bytes{type=\"total\"}"@, s.total_bytes as nat) + sample(
        "procfast_memory_bytes{type=\"free\"}"@,
        s.free_bytes as nat,
    ) + sample("procfast_memory_bytes{type=\"available\"}"@, s.available_bytes as nat) + sample(
        "procfast_memory_bytes{type=\"buffers\"}"@,
        s.buffers_bytes as nat,
    ) + sample("procfast_memory_bytes{type=\"shared\"}"@, s.shmem_bytes as nat) + sample(
        "procfast_memory_bytes{type=\"swap_total\"}"@,
        s.swap_total_bytes as nat,
    ) + sample("procfast_memory_bytes{type=\"swap_free\"}"@, s.swap_free_bytes as nat)
}

/// Appends the memory family.
pub fn render_mem(s: &MemData, out: &mut String)
    ensures
        final(out)@ == old(out)@ + mem_metrics(*s),
{
    out.append(MEM_HEADER);
    push_sample(out, "procfast_memory_bytes{type=\"total\"}", s.total_bytes);
    push_sample(out, "procfast_memory_bytes{type=\"free\"}", s.free_bytes);
    push_sample(out, "procfast_memory_bytes{type=\"available\"}", s.available_bytes);
    push_sample(out, "procfast_memory_bytes{type=\"buffers\"}", s.buffers_bytes);
    push_sample(out, "procfast_memory_bytes{type=\"shared\"}", s.shmem_bytes);
    push_sample(out, "procfast_memory_bytes{type=\"swap_total\"}", s.swap_total_bytes);
    push_sample(out, "procfast_memory_bytes{type=\"swap_free\"}", s.swap_free_bytes);
    assert(final(out)@ =~= old(out)@ + mem_metrics(*s));
}

// ---------------------------------------------------------------------------
// Network devices
// ---------------------------------------------------------------------------

/// The HELP and TYPE lines of the network families.
pub const NET_HEADER: &'static str = "# HELP procfast_net_rx_bytes_total Network receive bytes.\n# TYPE procfast_net_rx_bytes_total counter\n# HELP procfast_net_tx_bytes_total Network transmit bytes.\n# TYPE procfast_net_tx_bytes_total counter\n# HELP procfast_net_rx_packets_total Network receive packets.\n# TYPE procfast_net_rx_packets_total counter\n# HELP procfast_net_tx_packets_total Network transmit packets.\n# TYPE procfast_net_tx_packets_total counter\n# HELP procfast_net_rx_errors_total Network receive errors.\n# TYPE procfast_net_rx_errors_total counter\n# HELP procfast_net_tx_errors_total Network transmit errors.\n# TYPE procfast_net_tx_errors_total counter\n";

/// The device label and the closing brace.
pub open spec fn device_tail(name: Seq<char>) -> Seq<char> {
    "{device=\""@ + name + "\"}"@
}

/// The six samples of one network device.
pub open spec fn net_dev_metrics(d: NetDevStats) -> Seq<char> {
    let name = field_text(d.name@);
    sample("procfast_net_rx_bytes_total"@ + device_tail(name), d.rx_bytes as nat) + sample(
        "procfast_net_tx_bytes_total"@ + device_tail(name),
        d.tx_bytes as nat,
    ) + sample("procfast_net_rx_packets_total"@ + device_tail(name), d.rx_packets as nat) + sample(
        "procfast_net_tx_packets_total"@ + device_tail(name),
        d.tx_packets as nat,
    ) + sample("procfast_net_rx_errors_total"@ + device_tail(name), d.rx_errors as nat) + sample(
        "procfast_net_tx_errors_total"@ + device_tail(name),
        d.tx_errors as nat,
    )
}

/// The samples of the first `k` network devices.
pub open spec fn net_devs_metrics(devs: Seq<NetDevStats>, k: int) -> Seq<char>
    decreases k,
{
    if k <= 0 {
        Seq::empty()
    } else {
        net_devs_metrics(devs, k - 1) + net_dev_metrics(devs[k - 1])
    }
}

/// The network families: the header, then every reported device.
pub open spec fn net_metrics(s: NetData) -> Seq<char> {
    NET_HEADER@ + net_devs_metrics(s.devs@, reported(s.nr_devs, MAX_NET_DEVS))
}

/// Appends one sample of a device: the metric, the device label, the value.
fn push_device_sample(out: &mut String, metric: &str, name: &str, v: u64)
    ensures
        final(out)@ == old(out)@ + sample(metric@ + device_tail(name@), v as nat),
{
    out.append(metric);
    out.append("{device=\"");
    out.append(name);
    out.append("\"}");
    out.append(" ");
    push_decimal(out, v);
    out.append("\n");
    assert(final(out)@ =~= old(out)@ + sample(metric@ + device_tail(name@), v as nat));
}

fn render_net_dev(d: &NetDevStats, out: &mut String)
    ensures
        final(out)@ == old(out)@ + net_dev_metrics(*d),
{
    let name = bytes_to_str(d.name.as_slice());
    push_device_sample(out, "procfast_net_rx_bytes_total", name, d.rx_bytes);
    push_device_sample(out, "procfast_net_tx_bytes_total", name, d.tx_bytes);
    push_device_sample(out, "procfast_net_rx_packets_total", name, d.rx_packets);
    push_device_sample(out, "procfast_net_tx_packets_total", name, d.tx_packets);
    push_device_sample(out, "procfast_net_rx_errors_total", name, d.rx_errors);
    push_device_sample(out, "procfast_net_tx_errors_total", name, d.tx_errors);
    assert(final(out)@ =~= old(out)@ + net_dev_metrics(*d));
}

/// Appends the network families.
pub fn render_net(s: &NetData, out: &mut String)
    ensures
        final(out)@ == old(out)@ + net_metrics(*s),
{
    out.append(NET_HEADER);
    let ghost start = out@;
    let n = reported_count(s.nr_devs, MAX_NET_DEVS);
    let mut i: usize = 0;
    while i < n
        invariant
            n == reported(s.nr_devs, MAX_NET_DEVS),
            n <= MAX_NET_DEVS,
            i <= n,
            out@ == start + net_devs_metrics(s.devs@, i as int),
        decreases n - i,
    {
        render_net_dev(&s.devs[i], out);
        i = i + 1;
        assert(out@ =~= start + net_devs_metrics(s.devs@, i as int));
    }
    assert(out@ =~= old(out)@ + net_metrics(*s));
}

// ---------------------------------------------------------------------------
// Disks
// ---------------------------------------------------------------------------

/// The HELP and TYPE lines of the disk families.
pub const DISK_HEADER: &'static str = "# HELP procfast_disk_read_ios_total Disk read operations.\n# TYPE procfast_disk_read_ios_total counter\n# HELP procfast_disk_write_ios_total Disk write operations.\n# TYPE procfast_disk_write_ios_total counter\n# HELP procfast_disk_read_sectors_total Disk sectors read.\n# TYPE procfast_disk_read_sectors_total counter\n# HELP procfast_disk_write_sectors_total Disk sectors written.\n# TYPE procfast_disk_write_sectors_total counter\n";

/// The four samples of one disk.
pub open spec fn disk_metrics_of(d: DiskStats) -> Seq<char> {
    let name = field_text(d.name@);
    sample("procfast_disk_read_ios_total"@ + device_tail(name), d.read_ios as nat) + sample(
        "procfast_disk_write_ios_total"@ + device_tail(name),
        d.write_ios as nat,
    ) + sample("procfast_disk_read_sectors_total"@ + device_tail(name), d.read_sectors as nat)
        + sample("procfast_disk_write_sectors_total"@ + device_tail(name), d.write_sectors as nat)
}

/// The samples of the first `k` disks.
pub open spec fn disks_metrics(disks: Seq<DiskStats>, k: int) -> Seq<char>
    decreases k,
{
    if k <= 0 {
        Seq::empty()
    } else {
        disks_metrics(disks, k - 1) + disk_metrics_of(disks[k - 1])
    }
}

/// The disk families: the header, then every reported disk.
pub open spec fn disk_metrics(s: DiskData) -> Seq<char> {
    DISK_HEADER@ + disks_metrics(s.disks@, reported(s.nr_disks, MAX_DISKS))
}

fn render_one_disk(d: &DiskStats, out: &mut String)
    ensures
        final(out)@ == old(out)@ + disk_metrics_of(*d),
{
    let name = bytes_to_str(d.name.as_slice());
    push_device_sample(out, "procfast_disk_read_ios_total", name, d.read_ios);
    push_device_sample(out, "procfast_disk_write_ios_total", name, d.write_ios);
    push_device_sample(out, "procfast_disk_read_sectors_total", name, d.read_sectors);
    push_device_sample(out, "procfast_disk_write_sectors_total", name, d.write_sectors);
    assert(final(out)@ =~= old(out)@ + disk_metrics_of(*d));
}

/// Appends the disk families.
pub fn render_disk(s: &DiskData, out: &mut String)
    ensures
        final(out)@ == old(out)@ + disk_metrics(*s),
{
    out.append(DISK_HEADER);
    let ghost start = out@;
    let n = reported_count(s.nr_disks, MAX_DISKS);
    let mut i: usize = 0;
    while i < n
        invariant
            n == reported(s.nr_disks, MAX_DISKS),
            n <= MAX_DISKS,
            i <= n,
            out@ == start + disks_metrics(s.disks@, i as int),
        decreases n - i,
    {
        render_one_disk(&s.disks[i], out);
        i = i + 1;
        assert(out@ =~= start + disks_metrics(s.disks@, i as int));
    }
    assert(out@ =~= old(out)@ + disk_metrics(*s));
}

// ---------------------------------------------------------------------------
// Interrupt lines
// ---------------------------------------------------------------------------

/// The HELP and TYPE lines of the interrupt family.
pub const IRQ_HEADER: &'static str = "# HELP procfast_interrupts_total Interrupt count per IRQ.\n# TYPE procfast_interrupts_total counter\n";

/// The `irq` label: the action name of a soft-IRQ, the number of a
/// hardware line.
pub open spec fn irq_label(q: IrqStats) -> Seq<char> {
    if q.irq >= SOFTIRQ_BASE {
        field_text(q.action_name@)
    } else {
        decimal(q.irq as nat)
    }
}

/// The `type` label: `softirq` or `hardirq`.
pub open spec fn irq_kind(q: IrqStats) -> Seq<char> {
    if q.irq >= SOFTIRQ_BASE {
        "softirq"@
    } else {
        "hardirq"@
    }
}

/// The sample of one interrupt line.
pub open spec fn irq_metric(q: IrqStats) -> Seq<char> {
    sample(
        "procfast_interrupts_total{irq=\""@ + irq_label(q) + "\",type=\""@ + irq_kind(q)
            + "\",chip=\""@ + field_text(q.chip_name@) + "\",action=\""@ + field_text(
            q.action_name@,
        ) + "\"}"@,
        q.total_count as nat,
    )
}

/// The samples of the first `k` interrupt lines.
pub open spec fn irqs_metrics(irqs: Seq<IrqStats>, k: int) -> Seq<char>
    decreases k,
{
    if k <= 0 {
        Seq::empty()
    } else {
        irqs_metrics(irqs, k - 1) + irq_metric(irqs[k - 1])
    }
}

/// The interrupt family: the header, then every reported line.
pub open spec fn irq_metrics(s: IrqData) -> Seq<char> {
    IRQ_HEADER@ + irqs_metrics(s.irqs@, reported(s.nr_irqs, MAX_IRQS))
}

fn render_one_irq(q: &IrqStats, out: &mut String)
    ensures
        final(out)@ == old(out)@ + irq_metric(*q),
{
    let action = bytes_to_str(q.action_name.as_slice());
    let chip = bytes_to_str(q.chip_name.as_slice());
    let soft = q.irq >= SOFTIRQ_BASE;
    out.append("procfast_interrupts_total{irq=\"");
    if soft {
        out.append(action);
    } else {
        push_decimal(out, q.irq as u64);
    }
    out.append("\",type=\"");
    if soft {
        out.append("softirq");
    } else {
        out.append("hardirq");
    }
    out.append("\",chip=\"");
    out.append(chip);
    out.append("\",action=\"");
    out.append(action);
    out.append("\"}");
    out.append(" ");
    push_decimal(out, q.total_count);
    out.append("\n");
    assert(final(out)@ =~= old(out)@ + irq_metric(*q));
}

/// Appends the interrupt family.
pub fn render_irq(s: &IrqData, out: &mut String)
    ensures
        final(out)@ == old(out)@ + irq_metrics(*s),
{
    out.append(IRQ_HEADER);
    let ghost start = out@;
    let n = reported_count(s.nr_irqs, MAX_IRQS);
    let mut i: usize = 0;
    while i < n
        invariant
            n == reported(s.nr_irqs, MAX_IRQS),
            n <= MAX_IRQS,
            i <= n,
            out@ == start + irqs_metrics(s.irqs@, i as int),
        decreases n - i,
    {
        render_one_irq(&s.irqs[i], out);
        i = i + 1;
        assert(out@ =~= start + irqs_metrics(s.irqs@, i as int));
    }
    assert(out@ =~= old(out)@ + irq_metrics(*s));
}

// ---------------------------------------------------------------------------
// Processes
// ---------------------------------------------------------------------------

/// The HELP and TYPE lines of the process count.
pub const PROC_COUNT_HEADER: &'static str = "# HELP procfast_process_count Number of tracked processes.\n# TYPE procfast_process_count gauge\n";

/// The HELP and TYPE lines of the per-process families.
pub const PROC_FAMILIES_HEADER: &'static str = "# HELP procfast_process_cpu_seconds_total Process CPU runtime in seconds.\n# TYPE procfast_process_cpu_seconds_total counter\n# HELP procfast_process_rss_bytes Process resident set size in bytes.\n# TYPE procfast_process_rss_bytes gauge\n";

/// The process count family: its header and the number of tracked processes.
pub open spec fn proc_count_metrics(h: ProcHeader) -> Seq<char> {
    PROC_COUNT_HEADER@ + sample("procfast_process_count"@, h.nr_procs as nat)
}

/// Appends the process count family.
pub fn render_proc_count(h: &ProcHeader, out: &mut String)
    ensures
        final(out)@ == old(out)@ + proc_count_metrics(*h),
{
    out.append(PROC_COUNT_HEADER);
    push_sample(out, "procfast_process_count", h.nr_procs as u64);
    assert(final(out)@ =~= old(out)@ + proc_count_metrics(*h));
}

/// Appends the header of the per-process families.
pub fn render_proc_families(out: &mut String)
    ensures
        final(out)@ == old(out)@ + PROC_FAMILIES_HEADER@,
{
    out.append(PROC_FAMILIES_HEADER);
}

/// The labels of a process: its PID and command name.
pub open spec fn proc_labels_text(p: ProcStats) -> Seq<char> {
    "pid=\""@ + decimal(p.pid as nat) + "\",comm=\""@ + field_text(p.comm@) + "\""@
}

/// The labels of a process.
pub fn proc_labels(p: &ProcStats) -> (r: String)
    ensures
        r@ == proc_labels_text(*p),
{
    let mut r = String::new();
    r.append("pid=\"");
    push_decimal(&mut r, p.pid as u64);
    r.append("\",comm=\"");
    r.append(bytes_to_str(p.comm.as_slice()));
    r.append("\"");
    assert(r@ =~= proc_labels_text(*p));
    r
}

/// The resident set size sample of one process.
pub open spec fn proc_rss_metric(p: ProcStats) -> Seq<char> {
    sample("procfast_process_rss_bytes{"@ + proc_labels_text(p) + "}"@, p.rss_bytes as nat)
}

/// Appends the resident set size sample of one process.
pub fn render_proc_rss(p: &ProcStats, out: &mut String)
    ensures
        final(out)@ == old(out)@ + proc_rss_metric(*p),
{
    let labels = proc_labels(p);
    out.append("procfast_process_rss_bytes{");
    out.append(labels.as_str());
    out.append("}");
    out.append(" ");
    push_decimal(out, p.rss_bytes);
    out.append("\n");
    assert(final(out)@ =~= old(out)@ + proc_rss_metric(*p));
}

// ---------------------------------------------------------------------------
// Requests
// ---------------------------------------------------------------------------

/// What the exporter answers to a request path.
#[derive(Clone, Copy, Debug, PartialEq, Eq, Structural)]
pub enum Route {
    /// `/metrics`: the metrics text.
    Metrics,
    /// `/`: a page that links to the metrics.
    Index,
    /// Anything else: 404.
    NotFound,
}

/// What the exporter answers to the request path `url`.
pub fn route(url: &str) -> (r: Route)
    ensures
        r == (if url@ == "/metrics"@ {
            Route::Metrics
        } else if url@ == "/"@ {
            Route::Index
        } else {
            Route::NotFound
        }),
{
    if same_text(url, "/metrics") {
        Route::Metrics
    } else if same_text(url, "/") {
        Route::Index
    } else {
        Route::NotFound
    }
}

} // verus!
