use procfast::bytes::{read_array, read_i32, read_u16, read_u32, read_u64, u32_le_bytes, u64_le_bytes};
use procfast::reader::{
    decode_records, decode_value, fd_key, fd_key_bytes, inode_key, pid_key, read_seq,
    seqlock_read, writer_active, BatchWalk, SeqlockStep, END_OF_MAP,
};
use procfast::types::{
    CpuData, FdInfo, MemData, NetData, ProcHeader, ProcStats, ProcfastConfig, SharedLayout,
    SockInfo, CONFIG_SIZE, CPU_DATA_SIZE, DISK_DATA_SIZE, FD_INFO_SIZE, MEM_DATA_SIZE,
    NET_DATA_SIZE, PROC_HEADER_SIZE, PROC_STATS_SIZE, SOCK_INFO_SIZE, THERMAL_DATA_SIZE,
};
use procfast::types::{DiskData, ThermalData};

fn put_u64(b: &mut [u8], off: usize, v: u64) {
    b[off..off + 8].copy_from_slice(&v.to_le_bytes());
}

fn put_u32(b: &mut [u8], off: usize, v: u32) {
    b[off..off + 4].copy_from_slice(&v.to_le_bytes());
}

#[test]
fn little_endian_reads() {
    let b = [0x01u8, 0x02, 0x03, 0x04, 0x05, 0x06, 0x07, 0x08, 0xff, 0xff, 0xff, 0xff];
    assert_eq!(read_u16(&b, 0), 0x0201);
    assert_eq!(read_u32(&b, 0), 0x04030201);
    assert_eq!(read_u32(&b, 1), 0x05040302);
    assert_eq!(read_u64(&b, 0), 0x0807060504030201);
    assert_eq!(read_i32(&b, 8), -1);
    assert_eq!(read_i32(&b, 0), 0x04030201);
    let a: [u8; 3] = read_array(&b, 2);
    assert_eq!(a, [3, 4, 5]);
}

#[test]
fn integer_bytes_round_trip() {
    assert_eq!(u32_le_bytes(0x11223344), [0x44, 0x33, 0x22, 0x11]);
    assert_eq!(u64_le_bytes(1), [1, 0, 0, 0, 0, 0, 0, 0]);
    let v = 0xdead_beef_0bad_f00du64;
    assert_eq!(read_u64(&u64_le_bytes(v), 0), v);
    assert_eq!(read_u32(&u32_le_bytes(0xcafe_babe), 0), 0xcafe_babe);
}

#[test]
fn record_sizes() {
    assert_eq!(CpuData::size(), CPU_DATA_SIZE);
    assert_eq!(MemData::size(), MEM_DATA_SIZE);
    assert_eq!(NetData::size(), NET_DATA_SIZE);
    assert_eq!(DiskData::size(), DISK_DATA_SIZE);
    assert_eq!(ThermalData::size(), THERMAL_DATA_SIZE);
    assert_eq!(ProcStats::size(), PROC_STATS_SIZE);
    assert_eq!(ProcHeader::size(), PROC_HEADER_SIZE);
    assert_eq!(FdInfo::size(), FD_INFO_SIZE);
    assert_eq!(SockInfo::size(), SOCK_INFO_SIZE);
    assert_eq!(CONFIG_SIZE, 8);
    assert_eq!(MEM_DATA_SIZE, 128);
    assert_eq!(PROC_STATS_SIZE, 168);
    assert_eq!(FD_INFO_SIZE, 288);
}

#[test]
fn defaults_are_zero() {
    let m = MemData::default();
    assert_eq!(m.total_bytes, 0);
    assert_eq!(m.shmem_bytes, 0);
    let p = ProcStats::default();
    assert_eq!(p.pid, 0);
    assert_eq!(p.comm, [0u8; 16]);
    let f = FdInfo::default();
    assert_eq!(f.path[255], 0);
    let c = ProcfastConfig::default();
    assert_eq!(c.interval_ns, 0);
}

#[test]
fn decode_mem_record() {
    let mut b = vec![0u8; MEM_DATA_SIZE];
    put_u64(&mut b, 0, 6);
    put_u64(&mut b, 16, 16_000);
    put_u64(&mut b, 24, 4_000);
    put_u64(&mut b, 32, 9_000);
    put_u64(&mut b, 40, 100);
    put_u64(&mut b, 120, 77);
    let m = MemData::decode(&b);
    assert_eq!(m.seq, 6);
    assert_eq!(m.total_bytes, 16_000);
    assert_eq!(m.free_bytes, 4_000);
    assert_eq!(m.available_bytes, 9_000);
    assert_eq!(m.buffers_bytes, 100);
    assert_eq!(m.shmem_bytes, 77);
}

#[test]
fn decode_proc_record() {
    let mut b = vec![0u8; PROC_STATS_SIZE];
    put_u32(&mut b, 0, 1234);
    put_u32(&mut b, 4, 1234);
    put_u32(&mut b, 8, 1);
    b[12] = 1;
    put_u32(&mut b, 16, 1000);
    b[24..28].copy_from_slice(b"bash");
    put_u64(&mut b, 40, 5);
    put_u64(&mut b, 48, 7);
    b[72..76].copy_from_slice(&(-5i32).to_le_bytes());
    put_u64(&mut b, 112, 4096);
    put_u64(&mut b, 152, 99);
    put_u64(&mut b, 160, 42);
    let p = ProcStats::decode(&b);
    assert_eq!(p.pid, 1234);
    assert_eq!(p.ppid, 1);
    assert_eq!(p.state, 1);
    assert_eq!(p.uid, 1000);
    assert_eq!(&p.comm[..5], b"bash\0");
    assert_eq!(p.utime_ns, 5);
    assert_eq!(p.stime_ns, 7);
    assert_eq!(p.nice, -5);
    assert_eq!(p.rss_bytes, 4096);
    assert_eq!(p.cpu_runtime_ns, 99);
    assert_eq!(p.start_time_ns, 42);
}

#[test]
fn decode_fd_and_socket_records() {
    let mut b = vec![0u8; FD_INFO_SIZE];
    put_u32(&mut b, 0, 10);
    put_u32(&mut b, 4, 3);
    put_u64(&mut b, 16, 555);
    put_u32(&mut b, 24, 2);
    b[32..41].copy_from_slice(b"/etc/motd");
    let f = FdInfo::decode(&b);
    assert_eq!((f.pid, f.fd, f.inode, f.flags), (10, 3, 555, 2));
    assert_eq!(&f.path[..10], b"/etc/motd\0");

    let mut s = vec![0u8; SOCK_INFO_SIZE];
    put_u64(&mut s, 0, 900);
    put_u32(&mut s, 8, 2);
    put_u32(&mut s, 12, 1);
    s[16] = 6;
    s[17] = 10;
    put_u32(&mut s, 24, 22);
    put_u32(&mut s, 32, 0x0100007f);
    let k = SockInfo::decode(&s);
    assert_eq!(k.inode, 900);
    assert_eq!(k.family, 2);
    assert_eq!(k.protocol, 6);
    assert_eq!(k.state, 10);
    assert_eq!(k.local_port, 22);
    assert_eq!(k.local_addr4, 0x0100007f);
}

#[test]
fn sequence_counter_and_writer() {
    let mut b = vec![0u8; 16];
    put_u64(&mut b, 0, 41);
    assert_eq!(read_seq(&b), 41);
    assert!(writer_active(41));
    assert!(!writer_active(42));
    assert!(!writer_active(0));
}

#[test]
fn seqlock_keeps_only_consistent_copies() {
    let mut b = vec![0u8; MEM_DATA_SIZE];
    put_u64(&mut b, 16, 1234);
    match seqlock_read::<MemData>(4, &b, 4) {
        SeqlockStep::Done(m) => assert_eq!(m.total_bytes, 1234),
        SeqlockStep::Retry => panic!("a quiet counter must give the copy"),
    }
    assert!(matches!(seqlock_read::<MemData>(3, &b, 3), SeqlockStep::Retry));
    assert!(matches!(seqlock_read::<MemData>(4, &b, 6), SeqlockStep::Retry));
    assert!(matches!(seqlock_read::<MemData>(5, &b, 6), SeqlockStep::Retry));
}

#[test]
fn single_record_lookups() {
    let mut b = vec![0u8; PROC_HEADER_SIZE];
    put_u32(&mut b, 16, 321);
    let h: Option<ProcHeader> = decode_value(&Some(b.clone()));
    assert_eq!(h.unwrap().nr_procs, 321);
    let short: Option<ProcHeader> = decode_value(&Some(vec![0u8; 10]));
    assert!(short.is_none());
    let missing: Option<ProcHeader> = decode_value(&None);
    assert!(missing.is_none());
}

#[test]
fn record_keys() {
    assert_eq!(pid_key(0x01020304), [4, 3, 2, 1]);
    assert_eq!(fd_key(1, 2), (1u64 << 32) | 2);
    assert_eq!(fd_key(0, 7), 7);
    assert_eq!(fd_key_bytes(1, 2), ((1u64 << 32) | 2).to_le_bytes());
    assert_eq!(inode_key(0x0102), [2, 1, 0, 0, 0, 0, 0, 0]);
}

#[test]
fn fd_keys_never_collide() {
    let mut seen = std::collections::HashSet::new();
    for pid in [0u32, 1, 2, 65535, u32::MAX] {
        for fd in [0u32, 1, 2, 1 << 16, u32::MAX] {
            assert!(seen.insert(fd_key(pid, fd)));
        }
    }
}

#[test]
fn decode_batch_records() {
    let mut b = vec![0u8; 3 * FD_INFO_SIZE];
    for i in 0..3 {
        put_u32(&mut b, i * FD_INFO_SIZE, 100 + i as u32);
        put_u32(&mut b, i * FD_INFO_SIZE + 4, i as u32);
    }
    let two: Vec<FdInfo> = decode_records(&b, 2);
    assert_eq!(two.len(), 2);
    assert_eq!((two[0].pid, two[0].fd), (100, 0));
    assert_eq!((two[1].pid, two[1].fd), (101, 1));
    let none: Vec<FdInfo> = decode_records(&b, 0);
    assert!(none.is_empty());
}

#[test]
fn batch_walk_gathers_in_order() {
    let mut w: BatchWalk<ProcHeader> = BatchWalk::new();
    assert!(!w.resumes());
    let mut b = vec![0u8; 2 * PROC_HEADER_SIZE];
    put_u32(&mut b, 16, 1);
    put_u32(&mut b, PROC_HEADER_SIZE + 16, 2);
    assert!(w.take_batch(0, &b, 2));
    assert!(w.resumes());
    let mut c = vec![0u8; PROC_HEADER_SIZE];
    put_u32(&mut c, 16, 3);
    assert!(!w.take_batch(-2, &c, 1));
    let all = w.finish();
    let counts: Vec<u32> = all.iter().map(|h| h.nr_procs).collect();
    assert_eq!(counts, vec![1, 2, 3]);
}

#[test]
fn batch_walk_drops_failed_batch() {
    let mut w: BatchWalk<ProcHeader> = BatchWalk::new();
    let mut b = vec![0u8; 2 * PROC_HEADER_SIZE];
    put_u32(&mut b, 16, 7);
    put_u32(&mut b, PROC_HEADER_SIZE + 16, 8);
    assert!(w.take_batch(0, &b, 1));
    // a refused lookup (-EPERM, -EINVAL) reports no entries
    assert!(!w.take_batch(-1, &b, 2));
    assert!(!w.take_batch(-22, &b, 2));
    assert!(!w.take_batch(END_OF_MAP - 1, &b, 2));
    let all = w.finish();
    let counts: Vec<u32> = all.iter().map(|h| h.nr_procs).collect();
    assert_eq!(counts, vec![7]);
}
