use procfast::cgroups::cgroup_path;
use procfast::order::{listing, stable_order};
use std::collections::HashMap;
use procfast::types::{FdInfo, IrqData, MemData, ProcStats, SockInfo};
use procfast::views::{
    byte_unit, duration_form, endpoint_label, fd_listing, irq_listing, mem_used, ps_listing,
    sock_listing, sock_proto_label, sock_state_label, socket_owners, softirq_name, state_letter,
    state_name, top_by_runtime, ByteUnit, DurationForm,
};

fn proc_with(pid: u32, state: u8, utime: u64, stime: u64, runtime: u64) -> ProcStats {
    let mut p = ProcStats::default();
    p.pid = pid;
    p.state = state;
    p.utime_ns = utime;
    p.stime_ns = stime;
    p.cpu_runtime_ns = runtime;
    p
}

#[test]
fn stable_sort_orders() {
    assert_eq!(stable_order(&[3, 1, 2, 1]), vec![1, 3, 2, 0]);
    assert!(stable_order(&[]).is_empty());
    assert_eq!(stable_order(&[5, 5, 5]), vec![0, 1, 2]);
    assert_eq!(listing(&[true, false, true, true], &[9, 0, 1, 9]), vec![2, 0, 3]);
}

#[test]
fn process_list_by_cpu_time() {
    let all = vec![
        proc_with(1, 1, 10, 0, 0),
        proc_with(2, 4, 500, 0, 0),
        proc_with(3, 0, 20, 30, 0),
        proc_with(4, 1, 25, 25, 0),
        proc_with(5, 5, 900, 0, 0),
        proc_with(6, 2, u64::MAX, 5, 0),
    ];
    let order: Vec<u32> = ps_listing(&all).iter().map(|&i| all[i].pid).collect();
    assert_eq!(order, vec![6, 3, 4, 1]);
}

#[test]
fn exporter_top_by_runtime() {
    let all = vec![
        proc_with(1, 0, 0, 0, 5),
        proc_with(2, 0, 0, 0, 50),
        proc_with(3, 4, 0, 0, 500),
        proc_with(4, 1, 0, 0, 50),
        proc_with(5, 1, 0, 0, 1),
    ];
    let top: Vec<u32> = top_by_runtime(&all, 3).iter().map(|&i| all[i].pid).collect();
    assert_eq!(top, vec![2, 4, 1]);
    assert_eq!(top_by_runtime(&all, 10).len(), 4);
    assert!(top_by_runtime(&all, 0).is_empty());
}

#[test]
fn interrupt_tables() {
    let mut d = IrqData::default();
    d.nr_irqs = 4;
    d.irqs[0].irq = 9;
    d.irqs[1].irq = 0x8000_0003;
    d.irqs[2].irq = 1;
    d.irqs[3].irq = 0x8000_0001;
    d.irqs[4].irq = 0;
    assert_eq!(irq_listing(&d, false), vec![2, 0]);
    assert_eq!(irq_listing(&d, true), vec![3, 1]);
}

#[test]
fn descriptor_and_socket_tables() {
    let mut fds = vec![FdInfo::default(); 3];
    fds[0].pid = 2;
    fds[0].fd = 1;
    fds[1].pid = 1;
    fds[1].fd = 7;
    fds[2].pid = 1;
    fds[2].fd = 3;
    assert_eq!(fd_listing(&fds), vec![2, 1, 0]);
    let mut socks = vec![SockInfo::default(); 3];
    socks[0].protocol = 17;
    socks[1].protocol = 6;
    socks[1].state = 10;
    socks[2].protocol = 6;
    socks[2].state = 1;
    assert_eq!(sock_listing(&socks), vec![2, 1, 0]);
}

#[test]
fn state_labels() {
    assert_eq!(state_letter(0), "R");
    assert_eq!(state_letter(4), "Z");
    assert_eq!(state_letter(200), "X");
    assert_eq!(state_name(2), "Disk sleep");
    assert_eq!(state_name(9), "Dead");
    assert_eq!(softirq_name(1), "TIMER");
    assert_eq!(softirq_name(9), "RCU");
    assert_eq!(softirq_name(10), "?");
}

#[test]
fn socket_labels() {
    let mut s = SockInfo::default();
    s.protocol = 6;
    s.family = 10;
    s.state = 10;
    assert_eq!(sock_proto_label(&s), "tcp6");
    assert_eq!(sock_state_label(&s), "LISTEN");
    s.protocol = 17;
    s.family = 2;
    assert_eq!(sock_proto_label(&s), "udp");
    assert_eq!(sock_state_label(&s), "");
    s.protocol = 1;
    assert_eq!(sock_proto_label(&s), "???");
    assert_eq!(endpoint_label(2, 0x0100007f, 8080), "127.0.0.1:8080");
    assert_eq!(endpoint_label(10, 0, 443), "[::]:443");
    assert_eq!(endpoint_label(1, 0, 0), "?");
}

#[test]
fn memory_summary_figures() {
    let mut m = MemData::default();
    m.total_bytes = 1000;
    m.free_bytes = 300;
    m.buffers_bytes = 100;
    assert_eq!(mem_used(&m), 600);
    m.free_bytes = 2000;
    assert_eq!(mem_used(&m), 0);
    m.free_bytes = 950;
    assert_eq!(mem_used(&m), 0);
}

#[test]
fn byte_units() {
    assert_eq!(byte_unit(0), ByteUnit::Bytes);
    assert_eq!(byte_unit(1023), ByteUnit::Bytes);
    assert_eq!(byte_unit(1024), ByteUnit::KiB);
    assert_eq!(byte_unit(1024 * 1024), ByteUnit::MiB);
    assert_eq!(byte_unit(1024 * 1024 * 1024), ByteUnit::GiB);
    assert_eq!(byte_unit(u64::MAX), ByteUnit::GiB);
}

#[test]
fn duration_forms() {
    assert_eq!(duration_form(0), DurationForm::Blank);
    assert_eq!(duration_form(1_500_000_000), DurationForm::Seconds { ns: 1_500_000_000 });
    assert_eq!(
        duration_form(61_500_000_000),
        DurationForm::MinutesSeconds { minutes: 1, rest_ns: 1_500_000_000 }
    );
    assert_eq!(
        duration_form(3_723_000_000_000),
        DurationForm::HoursMinutes { hours: 1, minutes: 2 }
    );
}

#[test]
fn cgroup_paths() {
    let mut names: HashMap<u64, String> = HashMap::new();
    let mut parents: HashMap<u64, u64> = HashMap::new();
    names.insert(1, String::new());
    names.insert(2, "system.slice".to_string());
    names.insert(3, "sshd.service".to_string());
    names.insert(4, "loop".to_string());
    parents.insert(2, 1);
    parents.insert(3, 2);
    parents.insert(4, 4);
    assert_eq!(cgroup_path(&names, &parents, 3), "/system.slice/sshd.service");
    assert_eq!(cgroup_path(&names, &parents, 1), "/");
    assert_eq!(cgroup_path(&names, &parents, 99), "/");
    assert_eq!(cgroup_path(&names, &parents, 4), "/loop");
    for i in 10..30u64 {
        names.insert(i, format!("c{i}"));
        parents.insert(i, i + 1);
    }
    assert_eq!(cgroup_path(&names, &parents, 10), "/c19/c18/c17/c16/c15/c14/c13/c12/c11/c10");
}

#[test]
fn socket_owner_is_first_descriptor() {
    let mut fds = vec![FdInfo::default(); 4];
    fds[0].pid = 7;
    fds[0].inode = 0;
    fds[1].pid = 8;
    fds[1].inode = 500;
    fds[2].pid = 9;
    fds[2].inode = 500;
    fds[3].pid = 10;
    fds[3].inode = 600;
    let owners = socket_owners(&fds);
    assert_eq!(owners.len(), 2);
    assert_eq!(owners.get(&500), Some(&8));
    assert_eq!(owners.get(&600), Some(&10));
    assert_eq!(owners.get(&0), None);
}
