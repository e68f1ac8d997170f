use procfast::args::{
    parse_bench_args, parse_cli_args, BenchCommand, CliCommand, parse_daemon_args, parse_exporter_args, parse_lsof_args, DaemonCommand, ExporterArgs,
    ExporterCommand, LsofCommand,
};
use procfast::builder::{
    encode_config, pin_file, seeds, BuildOutcome, Collector, ProcfastBuilder, Seed,
};
use procfast::client::ProcfastClient;
use procfast::error::{ClientError, ProcfastError};
use procfast::lsof::{keeps_fd, uid_to_name};
use procfast::metrics::{render_disk, render_irq, render_mem, render_net, route, Route};
use procfast::views::{error_hint, ErrorHint};
use procfast::pin::{is_pinned, map_path, DEFAULT_PIN_PATH};
use procfast::procs::{collect_events, fds_of_pid, proc_comm, refresh_pids_from, EVENT_EXIT};
use procfast::types::{DiskData, FdInfo, IrqData, MemData, NetData, ProcStats};
use std::collections::HashMap;

fn argv(items: &[&str]) -> Vec<String> {
    items.iter().map(|s| s.to_string()).collect()
}

fn event(pid: u32, kind: u32) -> Vec<u8> {
    let mut v = pid.to_le_bytes().to_vec();
    v.extend_from_slice(&kind.to_le_bytes());
    v
}

fn proc_named(pid: u32, uid: u32, comm: &str) -> ProcStats {
    let mut p = ProcStats::default();
    p.pid = pid;
    p.uid = uid;
    p.comm[..comm.len()].copy_from_slice(comm.as_bytes());
    p
}

fn fd_at(pid: u32, fd: u32, path: &str) -> FdInfo {
    let mut f = FdInfo::default();
    f.pid = pid;
    f.fd = fd;
    f.path[..path.len()].copy_from_slice(path.as_bytes());
    f
}

#[test]
fn lifecycle_events_are_sorted() {
    let mut buf = Vec::new();
    buf.extend(event(10, 0));
    buf.extend(event(11, EVENT_EXIT));
    buf.extend(event(12, 1));
    buf.extend(vec![9, 9, 9]);
    let mut changed = vec![1];
    let mut exited = Vec::new();
    collect_events(&buf, buf.len(), &mut changed, &mut exited);
    assert_eq!(changed, vec![1, 10, 12]);
    assert_eq!(exited, vec![11]);
    assert_eq!(changed.len() - 1 + exited.len(), 3);
    let mut c2 = Vec::new();
    let mut e2 = Vec::new();
    collect_events(&buf, 12, &mut c2, &mut e2);
    assert_eq!(c2, vec![10]);
    assert!(e2.is_empty());
}

#[test]
fn cache_refresh_stores_found_processes() {
    let mut cache: HashMap<u32, ProcStats> = HashMap::new();
    cache.insert(5, proc_named(5, 0, "old"));
    let found = vec![Some(proc_named(5, 0, "new")), None, Some(proc_named(9, 0, "nine"))];
    let n = refresh_pids_from(&[5, 7, 9], &found, &mut cache);
    assert_eq!(n, 2);
    assert_eq!(cache.len(), 2);
    assert_eq!(proc_comm(&cache, 5), "new");
    assert_eq!(proc_comm(&cache, 9), "nine");
    assert_eq!(proc_comm(&cache, 7), "?");
}

#[test]
fn descriptors_of_one_process() {
    let all = vec![fd_at(1, 0, "a"), fd_at(2, 0, "b"), fd_at(1, 5, "c")];
    let mine = fds_of_pid(all, 1);
    let fds: Vec<u32> = mine.iter().map(|f| f.fd).collect();
    assert_eq!(fds, vec![0, 5]);
}

#[test]
fn map_paths_join_like_path_join() {
    assert_eq!(map_path("/sys/fs/bpf/procfast", "cpu_data"), "/sys/fs/bpf/procfast/cpu_data");
    assert_eq!(map_path("/tmp/x/", "cpu_data"), "/tmp/x/cpu_data");
    assert_eq!(map_path("", "cpu_data"), "cpu_data");
    assert_eq!(map_path("/tmp", "/abs"), "/abs");
    let joined = std::path::Path::new("/a/b").join("c");
    assert_eq!(map_path("/a/b", "c"), joined.to_str().unwrap());
}

#[test]
fn probe_and_pin_paths_agree() {
    let dir = "/sys/fs/bpf/procfast";
    assert_eq!(map_path(dir, "cpu_data"), pin_file(dir, "cpu_data"));
    assert_eq!(pin_file("/x", "mem_data"), "/x/mem_data");
}

#[test]
fn nothing_pinned_in_a_missing_directory() {
    assert!(!is_pinned("/nonexistent/procfast-test-dir"));
    assert_eq!(DEFAULT_PIN_PATH, "/sys/fs/bpf/procfast");
}

#[test]
fn client_needs_the_pin_directory() {
    match ProcfastClient::connect("/nonexistent/procfast-test-dir") {
        Err(ClientError::NotRunning(p)) => assert_eq!(p, "/nonexistent/procfast-test-dir"),
        _ => panic!("a missing pin directory means the daemon is not running"),
    }
    let c = ProcfastClient::from_probe("/tmp/pins", true, true).ok().unwrap();
    assert_eq!(c.pin_dir_str(), "/tmp/pins");
    assert_eq!(c.map_path("proc_stats"), "/tmp/pins/proc_stats");
    assert!(matches!(
        ProcfastClient::from_probe("/tmp/pins", false, false),
        Err(ClientError::NotRunning(_))
    ));
    match ProcfastClient::from_probe("/tmp/pins", true, false) {
        Err(ClientError::NotRunning(p)) => assert_eq!(p, "/tmp/pins"),
        _ => panic!("a directory without pinned maps means the daemon is not running"),
    }
    match ProcfastClient::connect("/") {
        Err(ClientError::NotRunning(p)) => assert_eq!(p, "/"),
        _ => panic!("the root directory holds no pinned maps"),
    }
}

#[test]
fn builder_defaults_and_plan() {
    let b = ProcfastBuilder::new();
    assert_eq!(
        b.collectors(),
        vec![
            Collector::Cpu,
            Collector::Mem,
            Collector::Net,
            Collector::Disk,
            Collector::Thermal,
            Collector::Irq,
            Collector::Proc
        ]
    );
    assert_eq!(b.config().unwrap().interval_ns, 100_000_000);
    assert!(b.pin_dir().is_none());
    assert!(!b.makes_public());
    let b = ProcfastBuilder::new().fd(true).proc_stats(false).cpu(false).interval_ms(5);
    assert_eq!(
        b.collectors(),
        vec![
            Collector::Mem,
            Collector::Net,
            Collector::Disk,
            Collector::Thermal,
            Collector::Irq,
            Collector::Fd,
            Collector::Sock
        ]
    );
    assert_eq!(b.config().unwrap().interval_ns, 5_000_000);
    let b = b.pin_path("/p").public(true);
    assert_eq!(b.pin_dir(), Some("/p"));
    assert!(b.makes_public());
    assert!(!b.public(false).makes_public());
    let only = ProcfastBuilder::new()
        .mem(false)
        .net(false)
        .disk(false)
        .thermal(false)
        .irq(false)
        .proc_stats(false);
    assert_eq!(only.collectors(), vec![Collector::Cpu]);
}

#[test]
fn seeds_follow_loaded_collectors() {
    assert_eq!(
        seeds(&[Collector::Cpu, Collector::Mem, Collector::Irq]),
        vec![Seed::Mem, Seed::Interrupts]
    );
    assert_eq!(
        seeds(&[Collector::Thermal, Collector::Disk, Collector::Net]),
        vec![Seed::Net, Seed::Disk, Seed::Thermal]
    );
    assert!(seeds(&[]).is_empty());
}

#[test]
fn pinned_map_names() {
    assert_eq!(Collector::Irq.pinned_maps(), vec!["irq_counts", "irq_metadata"]);
    assert_eq!(Collector::Proc.pinned_maps(), vec!["proc_header", "proc_stats", "proc_events"]);
    assert_eq!(Collector::Cpu.pinned_maps(), vec!["cpu_data"]);
    assert!(Collector::Cpu.is_required());
    assert!(!Collector::Fd.is_required());
}

#[test]
fn fallback_outcome() {
    let strict = ProcfastBuilder::new();
    let r: BuildOutcome<u8> = strict.finish_build(Err(ProcfastError::BpfLoad("x".into())));
    assert!(matches!(r, BuildOutcome::Failed(ProcfastError::BpfLoad(m)) if m == "x"));
    let lenient = ProcfastBuilder::new().allow_fallback(true);
    let r: BuildOutcome<u8> = lenient.finish_build(Err(ProcfastError::Pin("p".into())));
    assert!(matches!(r, BuildOutcome::FallBack(ProcfastError::Pin(m)) if m == "p"));
    let ok: BuildOutcome<u8> = lenient.finish_build(Ok(7));
    assert!(matches!(ok, BuildOutcome::Built(7)));
    let ok: BuildOutcome<u8> = strict.finish_build(Ok(8));
    assert!(matches!(ok, BuildOutcome::Built(8)));
}

#[test]
fn config_bytes() {
    assert!(ProcfastBuilder::new().interval_ms(u64::MAX / 1000).config().is_none());
    let b = ProcfastBuilder::new().interval_ms(250);
    assert_eq!(encode_config(&b.config().unwrap()), 250_000_000u64.to_le_bytes());
}

#[test]
fn daemon_options() {
    match parse_daemon_args(&argv(&["procfastd"])) {
        DaemonCommand::Run(a) => {
            assert_eq!(a.interval_ms, 100);
            assert_eq!(a.pin_path, DEFAULT_PIN_PATH);
            assert!(a.enable_proc && !a.enable_fd && !a.enable_cgroup && a.public);
        },
        _ => panic!("no options run with the defaults"),
    }
    match parse_daemon_args(&argv(&[
        "procfastd", "-i", "50", "--fd", "--no-proc", "-p", "/x", "--cgroup", "--no-public",
    ])) {
        DaemonCommand::Run(a) => {
            assert_eq!(a.interval_ms, 50);
            assert_eq!(a.pin_path, "/x");
            assert!(!a.enable_proc && a.enable_fd && a.enable_cgroup && !a.public);
        },
        _ => panic!("valid options run"),
    }
    assert!(matches!(parse_daemon_args(&argv(&["d", "--interval", "fast"])), DaemonCommand::BadInterval));
    assert!(matches!(parse_daemon_args(&argv(&["d", "--interval"])), DaemonCommand::MissingValue));
    assert!(matches!(parse_daemon_args(&argv(&["d", "-p"])), DaemonCommand::MissingValue));
    assert!(matches!(parse_daemon_args(&argv(&["d", "-h", "--bogus"])), DaemonCommand::Help));
    match parse_daemon_args(&argv(&["d", "--bogus", "-h"])) {
        DaemonCommand::Unknown(s) => assert_eq!(s, "--bogus"),
        _ => panic!("an unknown option stops the daemon"),
    }
}

#[test]
fn exporter_options() {
    let default = ExporterArgs { port: 9099, interval_ms: 1000 };
    assert_eq!(parse_exporter_args(&argv(&["e"])), ExporterCommand::Run(default));
    assert_eq!(
        parse_exporter_args(&argv(&["e", "--port", "9100", "-i", "500"])),
        ExporterCommand::Run(ExporterArgs { port: 9100, interval_ms: 500 })
    );
    assert_eq!(parse_exporter_args(&argv(&["e", "-p", "70000"])), ExporterCommand::Run(default));
    assert_eq!(parse_exporter_args(&argv(&["e", "-p"])), ExporterCommand::Run(default));
    assert_eq!(
        parse_exporter_args(&argv(&["e", "--what", "-p", "1"])),
        ExporterCommand::Run(ExporterArgs { port: 1, interval_ms: 1000 })
    );
    assert_eq!(parse_exporter_args(&argv(&["e", "--help"])), ExporterCommand::Help);
}

#[test]
fn lsof_options() {
    match parse_lsof_args(&argv(&["lsof", "-p", "12", "-c", "fire", "+D", "/tmp", "-J", "/var/log"])) {
        LsofCommand::Run(a) => {
            assert_eq!(a.pid, Some(12));
            assert_eq!(a.command.as_deref(), Some("fire"));
            assert_eq!(a.dir.as_deref(), Some("/tmp"));
            assert_eq!(a.path.as_deref(), Some("/var/log"));
            assert!(a.user.is_none());
            assert!(a.json);
        },
        _ => panic!("valid options run"),
    }
    match parse_lsof_args(&argv(&["lsof", "-p", "x", "-u"])) {
        LsofCommand::Run(a) => {
            assert_eq!(a.pid, None);
            assert_eq!(a.user, None);
        },
        _ => panic!("missing or bad values leave the filter unset"),
    }
    assert!(matches!(parse_lsof_args(&argv(&["lsof", "--help"])), LsofCommand::Help));
    match parse_lsof_args(&argv(&["lsof", "-x"])) {
        LsofCommand::Unknown(s) => assert_eq!(s, "-x"),
        _ => panic!("unknown options are refused"),
    }
    assert!(matches!(parse_lsof_args(&argv(&["lsof", "+X"])), LsofCommand::Unknown(_)));
}

const PASSWD: &str = "root:x:0:0:root:/root:/bin/bash\nbroken\nalice:x:1000:1000::/home/alice:/bin/sh\nbob:x:1000:1000::/home/bob:/bin/sh\n";

#[test]
fn user_names_from_passwd() {
    assert_eq!(uid_to_name(PASSWD, 0), b"root".to_vec());
    assert_eq!(uid_to_name(PASSWD, 1000), b"alice".to_vec());
    assert_eq!(uid_to_name(PASSWD, 42), b"?".to_vec());
    assert_eq!(uid_to_name("", 0), b"?".to_vec());
    assert_eq!(uid_to_name("x:y:+7", 7), b"x".to_vec());
}

#[test]
fn lsof_filters() {
    let mut procs: HashMap<u32, ProcStats> = HashMap::new();
    procs.insert(10, proc_named(10, 1000, "firefox"));
    procs.insert(20, proc_named(20, 0, "sshd"));
    let f1 = fd_at(10, 3, "/home/alice/notes.txt");
    let f2 = fd_at(20, 4, "/var/log/auth.log");
    let f3 = fd_at(30, 1, "/tmp/orphan");
    let all_of = |args: &[&str]| -> Vec<u32> {
        let a = match parse_lsof_args(&argv(args)) {
            LsofCommand::Run(a) => a,
            _ => panic!("options"),
        };
        [f1, f2, f3].iter().filter(|f| keeps_fd(&a, f, &procs, PASSWD)).map(|f| f.pid).collect()
    };
    assert_eq!(all_of(&["l"]), vec![10, 20, 30]);
    assert_eq!(all_of(&["l", "-p", "20"]), vec![20]);
    assert_eq!(all_of(&["l", "-c", "fox"]), vec![10]);
    assert_eq!(all_of(&["l", "-c", "?"]), vec![30]);
    assert_eq!(all_of(&["l", "-u", "alice"]), vec![10]);
    assert_eq!(all_of(&["l", "-u", "0"]), vec![20]);
    assert_eq!(all_of(&["l", "-u", "root"]), vec![20]);
    assert_eq!(all_of(&["l", "log"]), vec![20]);
    assert_eq!(all_of(&["l", "+D", "/tmp"]), vec![30]);
    assert_eq!(all_of(&["l", "+D", "/home", "-c", "sshd"]), Vec::<u32>::new());
}

#[test]
fn memory_metrics_text() {
    let mut m = MemData::default();
    m.total_bytes = 100;
    m.free_bytes = 20;
    m.available_bytes = 50;
    m.buffers_bytes = 3;
    m.shmem_bytes = 4;
    m.swap_total_bytes = 7;
    m.swap_free_bytes = 6;
    let mut out = String::from("x\n");
    render_mem(&m, &mut out);
    assert_eq!(
        out,
        "x\n# HELP procfast_memory_bytes Memory statistics in bytes.\n# TYPE procfast_memory_bytes gauge\nprocfast_memory_bytes{type=\"total\"} 100\nprocfast_memory_bytes{type=\"free\"} 20\nprocfast_memory_bytes{type=\"available\"} 50\nprocfast_memory_bytes{type=\"buffers\"} 3\nprocfast_memory_bytes{type=\"shared\"} 4\nprocfast_memory_bytes{type=\"swap_total\"} 7\nprocfast_memory_bytes{type=\"swap_free\"} 6\n"
    );
}

#[test]
fn network_metrics_text() {
    let mut n = NetData::default();
    n.nr_devs = 1;
    n.devs[0].name[..4].copy_from_slice(b"eth0");
    n.devs[0].rx_bytes = 1;
    n.devs[0].tx_bytes = 2;
    n.devs[0].rx_packets = 3;
    n.devs[0].tx_packets = 4;
    n.devs[0].rx_errors = 5;
    n.devs[0].tx_errors = 6;
    n.devs[1].rx_bytes = 99;
    let mut out = String::new();
    render_net(&n, &mut out);
    assert!(out.starts_with("# HELP procfast_net_rx_bytes_total Network receive bytes.\n"));
    assert!(out.ends_with(
        "procfast_net_rx_bytes_total{device=\"eth0\"} 1\nprocfast_net_tx_bytes_total{device=\"eth0\"} 2\nprocfast_net_rx_packets_total{device=\"eth0\"} 3\nprocfast_net_tx_packets_total{device=\"eth0\"} 4\nprocfast_net_rx_errors_total{device=\"eth0\"} 5\nprocfast_net_tx_errors_total{device=\"eth0\"} 6\n"
    ));
    assert!(!out.contains(" 99\n"));
}

#[test]
fn disk_metrics_text() {
    let mut d = DiskData::default();
    d.nr_disks = 1;
    d.disks[0].name[..3].copy_from_slice(b"sda");
    d.disks[0].read_ios = 10;
    d.disks[0].write_ios = 20;
    d.disks[0].read_sectors = 30;
    d.disks[0].write_sectors = 40;
    let mut out = String::new();
    render_disk(&d, &mut out);
    assert!(out.ends_with(
        "# TYPE procfast_disk_write_sectors_total counter\nprocfast_disk_read_ios_total{device=\"sda\"} 10\nprocfast_disk_write_ios_total{device=\"sda\"} 20\nprocfast_disk_read_sectors_total{device=\"sda\"} 30\nprocfast_disk_write_sectors_total{device=\"sda\"} 40\n"
    ));
}

#[test]
fn interrupt_metrics_text() {
    let mut d = IrqData::default();
    d.nr_irqs = 2;
    d.irqs[0].irq = 24;
    d.irqs[0].total_count = 7;
    d.irqs[0].chip_name[..7].copy_from_slice(b"PCI-MSI");
    d.irqs[0].action_name[..4].copy_from_slice(b"nvme");
    d.irqs[1].irq = 0x8000_0001;
    d.irqs[1].total_count = 3;
    d.irqs[1].action_name[..5].copy_from_slice(b"TIMER");
    let mut out = String::new();
    render_irq(&d, &mut out);
    assert_eq!(
        out,
        "# HELP procfast_interrupts_total Interrupt count per IRQ.\n# TYPE procfast_interrupts_total counter\nprocfast_interrupts_total{irq=\"24\",type=\"hardirq\",chip=\"PCI-MSI\",action=\"nvme\"} 7\nprocfast_interrupts_total{irq=\"TIMER\",type=\"softirq\",chip=\"\",action=\"TIMER\"} 3\n"
    );
}

#[test]
fn bench_options() {
    match parse_bench_args(&argv(&["b"])) {
        BenchCommand::Run { iterations, parts } => {
            assert_eq!(iterations, 10_000);
            assert!(parts.is_empty());
        },
        _ => panic!("no options run everything"),
    }
    match parse_bench_args(&argv(&["b", "cpu", "-n", "5", "mem"])) {
        BenchCommand::Run { iterations, parts } => {
            assert_eq!(iterations, 5);
            assert_eq!(parts, vec!["cpu".to_string(), "mem".to_string()]);
        },
        _ => panic!("valid options run"),
    }
    assert!(matches!(parse_bench_args(&argv(&["b", "-n"])), BenchCommand::BadIterations));
    assert!(matches!(parse_bench_args(&argv(&["b", "-n", "x"])), BenchCommand::BadIterations));
    assert!(matches!(parse_bench_args(&argv(&["b", "cpu", "--help"])), BenchCommand::Help));
}

#[test]
fn query_tool_commands() {
    assert_eq!(parse_cli_args(&argv(&["procfast"])), CliCommand::Usage);
    assert_eq!(parse_cli_args(&argv(&["procfast", "cpu", "extra"])), CliCommand::Cpu);
    assert_eq!(parse_cli_args(&argv(&["procfast", "fd"])), CliCommand::Fd(None));
    assert_eq!(parse_cli_args(&argv(&["procfast", "fd", "42"])), CliCommand::Fd(Some(42)));
    assert_eq!(parse_cli_args(&argv(&["procfast", "fd", "x"])), CliCommand::BadPid);
    assert_eq!(parse_cli_args(&argv(&["procfast", "pid"])), CliCommand::PidMissing);
    assert_eq!(parse_cli_args(&argv(&["procfast", "pid", "7"])), CliCommand::Pid(7));
    assert_eq!(parse_cli_args(&argv(&["procfast", "pid", "-7"])), CliCommand::BadPid);
    assert_eq!(parse_cli_args(&argv(&["procfast", "top"])), CliCommand::Top(None));
    assert_eq!(
        parse_cli_args(&argv(&["procfast", "top", "200ms"])),
        CliCommand::Top(Some("200ms".to_string()))
    );
    assert_eq!(parse_cli_args(&argv(&["procfast", "json"])), CliCommand::JsonMissing);
    assert_eq!(
        parse_cli_args(&argv(&["procfast", "json", "mem"])),
        CliCommand::Json("mem".to_string())
    );
    assert_eq!(parse_cli_args(&argv(&["procfast", "-h"])), CliCommand::Help);
    assert_eq!(parse_cli_args(&argv(&["procfast", "help"])), CliCommand::Help);
    assert_eq!(parse_cli_args(&argv(&["procfast", "sock"])), CliCommand::Sock);
    assert_eq!(
        parse_cli_args(&argv(&["procfast", "frob"])),
        CliCommand::Unknown("frob".to_string())
    );
}

#[test]
fn exporter_routes() {
    assert_eq!(route("/metrics"), Route::Metrics);
    assert_eq!(route("/"), Route::Index);
    assert_eq!(route("/metrics/"), Route::NotFound);
    assert_eq!(route(""), Route::NotFound);
}

#[test]
fn error_explanations() {
    assert_eq!(
        error_hint("failed to open pinned map /x: No such file or directory (os error 2)"),
        ErrorHint::MissingMap
    );
    assert_eq!(error_hint("mmap failed: Permission denied (os error 13)"), ErrorHint::PermissionDenied);
    assert_eq!(error_hint("Operation not permitted"), ErrorHint::PermissionDenied);
    assert_eq!(error_hint("something else"), ErrorHint::Plain);
}
