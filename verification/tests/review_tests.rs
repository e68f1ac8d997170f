use procfast::builder::{Collector, ProcfastBuilder};
use procfast::cgroups::{cgroup_rows, cgroup_summary, shown_path, summary_line, top_pressure, CgroupStats, CgroupSummary};
use procfast::metrics::{proc_labels, render_proc_count, render_proc_families, render_proc_rss};
use procfast::setup::{SetupRun, SetupStep};
use procfast::types::{ProcHeader, ProcStats};
use procfast::views::{live_processes, top_rows};

fn proc_at(pid: u32, state: u8, runtime: u64) -> ProcStats {
    let mut p = ProcStats::default();
    p.pid = pid;
    p.state = state;
    p.cpu_runtime_ns = runtime;
    p
}

fn cg(id: u64, mem: u64) -> CgroupStats {
    CgroupStats {
        id,
        parent_id: 0,
        memory_current: mem,
        memory_limit: 0,
        cpu_quota_us: 0,
        nr_throttled: 0,
        frozen: 0,
        psi_cpu_some: 0,
        psi_mem_some: 0,
        psi_io_some: 0,
    }
}

#[test]
fn live_view_rows() {
    let prev = vec![proc_at(1, 0, 100), proc_at(2, 0, 50), proc_at(2, 0, 70), proc_at(3, 0, 500)];
    let snap = vec![
        proc_at(1, 0, 150),
        proc_at(2, 1, 100),
        proc_at(3, 0, 400),
        proc_at(4, 0, 900),
        proc_at(5, 4, 999),
        proc_at(6, 1, 10),
    ];
    // pid 1 gained 50, pid 2 gained 30 (its last earlier record), pid 3 went
    // backwards (0), pid 4 is new (0), pid 5 is a zombie, pid 6 is new (0).
    assert_eq!(top_rows(&prev, &snap, 10), vec![(0, 50), (1, 30), (2, 0), (3, 0), (5, 0)]);
    assert_eq!(top_rows(&prev, &snap, 2), vec![(0, 50), (1, 30)]);
    assert!(top_rows(&prev, &snap, 0).is_empty());
    assert_eq!(live_processes(&snap), vec![0, 1, 2, 3, 5]);
}

#[test]
fn collector_steps() {
    assert_eq!(
        Collector::Cpu.setup_steps(true),
        vec![SetupStep::Config("cpu_config"), SetupStep::Pin("cpu_data"), SetupStep::Init("procfast_cpu_init")]
    );
    assert_eq!(
        Collector::Cpu.setup_steps(false),
        vec![SetupStep::Config("cpu_config"), SetupStep::Init("procfast_cpu_init")]
    );
    assert_eq!(
        Collector::Sock.setup_steps(true),
        vec![
            SetupStep::Iterate("procfast_iter_tcp"),
            SetupStep::Iterate("procfast_iter_udp"),
            SetupStep::Iterate("procfast_iter_unix"),
            SetupStep::Pin("sock_entries")
        ]
    );
    let proc_steps = Collector::Proc.setup_steps(true);
    assert_eq!(proc_steps.len(), 10);
    assert_eq!(proc_steps[1], SetupStep::Pin("proc_header"));
    assert_eq!(proc_steps[8], SetupStep::Iterate("procfast_proc_dump_task"));
    assert_eq!(Collector::Irq.setup_steps(false)[0], SetupStep::Attach("fentry_handle_irq_event"));
}

#[test]
fn setup_run_skips_optional_failures() {
    let b = ProcfastBuilder::new().fd(true);
    let mut run = SetupRun::new(&b);
    let mut tried = Vec::new();
    while let Some(c) = run.next_collector() {
        tried.push(c);
        run.record(c != Collector::Mem && c != Collector::Sock);
    }
    assert!(!run.is_aborted());
    assert_eq!(tried.len(), 9);
    let loaded = run.loaded_collectors();
    assert!(loaded.contains(&Collector::Cpu));
    assert!(!loaded.contains(&Collector::Mem));
    assert!(!loaded.contains(&Collector::Sock));
    assert!(loaded.contains(&Collector::Fd));
}

#[test]
fn setup_run_stops_when_cpu_fails() {
    let b = ProcfastBuilder::new();
    let mut run = SetupRun::new(&b);
    assert_eq!(run.next_collector(), Some(Collector::Cpu));
    run.record(false);
    assert!(run.is_aborted());
    assert_eq!(run.next_collector(), None);
    assert!(run.loaded_collectors().is_empty());
}

#[test]
fn plan_follows_settings() {
    let mut run = SetupRun::new(&ProcfastBuilder::new());
    while run.next_collector().is_some() {
        run.record(true);
    }
    let loaded = run.loaded_collectors();
    assert!(loaded.contains(&Collector::Cpu));
    assert!(!loaded.contains(&Collector::Fd) && !loaded.contains(&Collector::Sock));
    let mut run = SetupRun::new(&ProcfastBuilder::new().cpu(false));
    while run.next_collector().is_some() {
        run.record(true);
    }
    assert!(!run.loaded_collectors().contains(&Collector::Cpu));
}

#[test]
fn process_metric_lines() {
    let mut h = ProcHeader::default();
    h.nr_procs = 12;
    let mut out = String::new();
    render_proc_count(&h, &mut out);
    assert_eq!(
        out,
        "# HELP procfast_process_count Number of tracked processes.\n# TYPE procfast_process_count gauge\nprocfast_process_count 12\n"
    );
    let mut out = String::new();
    render_proc_families(&mut out);
    assert!(out.starts_with("# HELP procfast_process_cpu_seconds_total"));
    assert!(out.ends_with("# TYPE procfast_process_rss_bytes gauge\n"));
    let mut p = proc_at(42, 0, 0);
    p.comm[..4].copy_from_slice(b"bash");
    p.rss_bytes = 4096;
    assert_eq!(proc_labels(&p), "pid=\"42\",comm=\"bash\"");
    let mut out = String::new();
    render_proc_rss(&p, &mut out);
    assert_eq!(out, "procfast_process_rss_bytes{pid=\"42\",comm=\"bash\"} 4096\n");
}

#[test]
fn cgroup_table() {
    let mut all = vec![cg(1, 10), cg(2, 30), cg(3, 30), cg(4, 0)];
    all[0].memory_limit = 5;
    all[1].cpu_quota_us = 100;
    all[1].nr_throttled = 2;
    all[2].frozen = 1;
    all[2].psi_io_some = 7;
    all[3].psi_cpu_some = 3;
    all[3].psi_mem_some = 5;
    assert_eq!(cgroup_rows(&all), vec![1, 2, 0, 3]);
    assert_eq!(
        cgroup_summary(&all),
        CgroupSummary { total: 4, memory_limited: 1, cpu_limited: 1, throttled: 1, frozen: 1, any_pressure: true }
    );
    assert_eq!(top_pressure(&all), vec![3, 2]);
    assert!(!cgroup_summary(&all[..2]).any_pressure);
    assert!(top_pressure(&all[..2]).is_empty());
}

#[test]
fn cgroup_paths_are_cut_to_the_last_bytes() {
    assert_eq!(shown_path("/system.slice"), "/system.slice");
    let long = format!("/{}", "a".repeat(60));
    assert_eq!(shown_path(&long), &long[long.len() - 48..]);
    assert_eq!(shown_path(&long).len(), 48);
}

#[test]
fn cgroup_summary_line_names_frozen_only_when_some_are() {
    let some = CgroupSummary { total: 12, memory_limited: 3, cpu_limited: 0, throttled: 10, frozen: 2, any_pressure: false };
    assert_eq!(summary_line(&some), "12 cgroups: 3 memory-limited, 0 cpu-limited, 10 throttled, 2 frozen");
    let none = CgroupSummary { frozen: 0, ..some };
    assert_eq!(summary_line(&none), "12 cgroups: 3 memory-limited, 0 cpu-limited, 10 throttled");
    let empty = cgroup_summary(&[]);
    assert_eq!(summary_line(&empty), "0 cgroups: 0 memory-limited, 0 cpu-limited, 0 throttled");
}
