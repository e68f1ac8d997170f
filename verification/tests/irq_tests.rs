use procfast::irq::{
    irq_entry, irq_from_key, irq_key, irq_names, irq_seed_metadata, is_softirq, key_step,
    parse_interrupts, percpu_counts_from, possible_cpus, seed_percpu_values, softirq_vec,
    total_count, irq_walk, IrqSnapshot, KeyStep, ShortKey, SOFTIRQ_BASE,
};
use procfast::types::MAX_IRQS;

#[test]
fn softirq_numbers() {
    assert!(!is_softirq(0));
    assert!(!is_softirq(0x7fff_ffff));
    assert!(is_softirq(SOFTIRQ_BASE));
    assert!(is_softirq(SOFTIRQ_BASE | 3));
    assert_eq!(softirq_vec(SOFTIRQ_BASE | 3), Some(3));
    assert_eq!(softirq_vec(SOFTIRQ_BASE), Some(0));
    assert_eq!(softirq_vec(42), None);
}

#[test]
fn softirq_number_round_trip() {
    for v in [0u32, 1, 9, 0x7fff_ffff] {
        assert_eq!(softirq_vec(SOFTIRQ_BASE + v), Some(v));
    }
}

#[test]
fn interrupts_text_is_parsed() {
    let text = "           CPU0       CPU1       \n  0:         46          0   IO-APIC    2-edge      timer\n  8:          1          2   IO-APIC    8-edge      rtc0\n 24:          5   PCI-MSI\nNMI:          0          0   Non-maskable interrupts\nLOC:     123456     654321   Local timer interrupts\n";
    let seeds = parse_interrupts(text);
    assert_eq!(seeds.len(), 3);
    assert_eq!(seeds[0].irq, 0);
    assert_eq!(seeds[0].per_cpu, vec![46, 0]);
    assert_eq!(seeds[0].chip, b"IO-APIC".to_vec());
    assert_eq!(seeds[0].action, b"timer".to_vec());
    assert_eq!(seeds[1].irq, 8);
    assert_eq!(seeds[1].per_cpu, vec![1, 2]);
    assert_eq!(seeds[1].action, b"rtc0".to_vec());
    assert_eq!(seeds[2].irq, 24);
    assert_eq!(seeds[2].per_cpu, vec![5, 0]);
    assert_eq!(seeds[2].chip, Vec::<u8>::new());
    assert_eq!(seeds[2].action, Vec::<u8>::new());
}

#[test]
fn interrupts_edge_cases() {
    assert!(parse_interrupts("").is_empty());
    assert!(parse_interrupts("   CPU0\n").is_empty());
    let seeds = parse_interrupts("  CPU0\n  3:   x   chip   a   b\n");
    assert_eq!(seeds.len(), 1);
    assert_eq!(seeds[0].per_cpu, vec![0]);
    assert_eq!(seeds[0].chip, b"chip".to_vec());
    assert_eq!(seeds[0].action, b"b".to_vec());
}

#[test]
fn seeded_names_read_back() {
    let meta = irq_seed_metadata("IO-APIC", "timer");
    assert_eq!(&meta[..8], b"IO-APIC\0");
    assert_eq!(&meta[32..38], b"timer\0");
    let (chip, action) = irq_names(&meta);
    assert_eq!(&chip[..8], b"IO-APIC\0");
    assert_eq!(&action[..6], b"timer\0");
    let long = "x".repeat(100);
    let meta = irq_seed_metadata(&long, &long);
    assert_eq!(meta[30], b'x');
    assert_eq!(meta[31], 0);
    assert_eq!(meta[94], b'x');
    assert_eq!(meta[95], 0);
}

#[test]
fn seeded_counts_read_back() {
    let values = seed_percpu_values(&[5, 6], 4);
    assert_eq!(values.len(), 4);
    assert_eq!(values[0], 5u64.to_le_bytes().to_vec());
    assert_eq!(percpu_counts_from(&values), vec![5, 6, 0, 0]);
    let short = vec![vec![1u8, 2], 9u64.to_le_bytes().to_vec()];
    assert_eq!(percpu_counts_from(&short), vec![0, 9]);
}

#[test]
fn interrupt_keys() {
    assert_eq!(irq_key(0x80000001), [1, 0, 0, 0x80]);
    assert_eq!(irq_from_key(&irq_key(77)), Some(77));
    assert_eq!(irq_from_key(&[1, 2]), None);
    assert_eq!(irq_from_key(&[1, 0, 0, 0, 9]), Some(1));
}

#[test]
fn entries_sum_counts() {
    assert_eq!(total_count(&vec![]), 0);
    assert_eq!(total_count(&vec![1, 2, 3]), 6);
    let meta = irq_seed_metadata("PCI-MSI", "nvme0q0").to_vec();
    let e = irq_entry(24, &Some(vec![10, 20]), &Some(meta));
    assert_eq!(e.irq, 24);
    assert_eq!(e.total_count, 30);
    assert_eq!(&e.chip_name[..8], b"PCI-MSI\0");
    assert_eq!(&e.action_name[..8], b"nvme0q0\0");
    let bare = irq_entry(5, &None, &Some(vec![1, 2, 3]));
    assert_eq!(bare.total_count, 0);
    assert_eq!(bare.chip_name, [0u8; 32]);
}

#[test]
fn snapshot_fills_in_order() {
    let mut snap = IrqSnapshot::new();
    assert!(!snap.is_full());
    snap.add(1, &Some(vec![4]), &None);
    snap.add(SOFTIRQ_BASE | 1, &Some(vec![1, 1]), &None);
    snap.add(7, &Some(vec![0, 0]), &None);
    snap.add(8, &None, &None);
    let d = snap.finish();
    assert_eq!(d.nr_irqs, 2);
    assert_eq!(d.irqs[0].irq, 1);
    assert_eq!(d.irqs[0].total_count, 4);
    assert_eq!(d.irqs[1].irq, SOFTIRQ_BASE | 1);
    assert_eq!(d.irqs[1].total_count, 2);
    assert_eq!(d.irqs[2].irq, 0);
    assert_eq!(d.irqs[MAX_IRQS - 1].total_count, 0);
}

#[test]
fn snapshot_capacity() {
    let mut snap = IrqSnapshot::new();
    for i in 0..MAX_IRQS as u32 {
        assert!(!snap.is_full());
        snap.add(i, &Some(vec![1]), &None);
    }
    assert!(snap.is_full());
    assert_eq!(snap.finish().nr_irqs as usize, MAX_IRQS);
}

#[test]
fn possible_cpu_list() {
    assert_eq!(possible_cpus(Some("0-7\n")), 8);
    assert_eq!(possible_cpus(Some("0\n")), 1);
    assert_eq!(possible_cpus(Some("  0-3,5-15 \n")), 16);
    assert_eq!(possible_cpus(Some("0-")), 16);
    assert_eq!(possible_cpus(Some("")), 16);
    assert_eq!(possible_cpus(Some("abc")), 16);
    assert_eq!(possible_cpus(None), 16);
}

#[test]
fn counter_keys() {
    assert_eq!(key_step(&[5, 0, 0, 0], ShortKey::Stop), KeyStep::Line(5));
    assert_eq!(key_step(&[5, 0, 0, 0, 9], ShortKey::Skip), KeyStep::Line(5));
    assert_eq!(key_step(&[5, 0], ShortKey::Skip), KeyStep::Skip);
    assert_eq!(key_step(&[5, 0], ShortKey::Stop), KeyStep::Stop);
}

#[test]
fn walk_stops_or_skips_at_short_key() {
    let keys = vec![vec![3, 0, 0, 0], vec![9, 9], vec![4, 0, 0, 0], vec![5, 0, 0, 0]];
    let counts = vec![Some(vec![2, 3]), None, Some(vec![0]), Some(vec![7])];
    let mut meta = vec![0u8; 96];
    meta[..4].copy_from_slice(b"GICv");
    meta[32..35].copy_from_slice(b"eth");
    let metas = vec![None, None, None, Some(meta)];
    let skip = irq_walk(&keys, &counts, &metas, ShortKey::Skip);
    assert_eq!(skip.nr_irqs, 2);
    assert_eq!((skip.irqs[0].irq, skip.irqs[0].total_count), (3, 5));
    assert_eq!((skip.irqs[1].irq, skip.irqs[1].total_count), (5, 7));
    assert_eq!(&skip.irqs[1].chip_name[..5], b"GICv\0");
    assert_eq!(&skip.irqs[1].action_name[..4], b"eth\0");
    assert_eq!(skip.irqs[0].chip_name, [0u8; 32]);
    assert_eq!(skip.irqs[2].irq, 0);
    let stop = irq_walk(&keys, &counts, &metas, ShortKey::Stop);
    assert_eq!(stop.nr_irqs, 1);
    assert_eq!((stop.irqs[0].irq, stop.irqs[0].total_count), (3, 5));
    assert_eq!(stop.irqs[1].total_count, 0);
}

#[test]
fn walks_agree_on_full_keys() {
    let keys: Vec<Vec<u8>> = (0..5u32).map(|i| i.to_le_bytes().to_vec()).collect();
    let counts: Vec<Option<Vec<u64>>> = (0..5u64).map(|i| if i == 2 { None } else { Some(vec![i + 1]) }).collect();
    let metas = vec![None; 5];
    let a = irq_walk(&keys, &counts, &metas, ShortKey::Skip);
    let b = irq_walk(&keys, &counts, &metas, ShortKey::Stop);
    assert_eq!(a.nr_irqs, 4);
    assert_eq!(a.nr_irqs, b.nr_irqs);
    for j in 0..a.nr_irqs as usize {
        assert_eq!((a.irqs[j].irq, a.irqs[j].total_count), (b.irqs[j].irq, b.irqs[j].total_count));
    }
}

#[test]
fn walk_ends_when_full() {
    let keys: Vec<Vec<u8>> = (0..MAX_IRQS as u32 + 3).map(|i| i.to_le_bytes().to_vec()).collect();
    let counts: Vec<Option<Vec<u64>>> = keys.iter().map(|_| Some(vec![1])).collect();
    let metas = vec![None; keys.len()];
    let d = irq_walk(&keys, &counts, &metas, ShortKey::Skip);
    assert_eq!(d.nr_irqs as usize, MAX_IRQS);
    assert_eq!(d.irqs[MAX_IRQS - 1].irq, MAX_IRQS as u32 - 1);
}
