//! Setting up the collectors: the steps that load each one, and the run
//! that loads the planned collectors in order, skipping those that fail
//! unless a required one fails.

use crate::builder::{enabled_collectors, BuilderView, Collector, ProcfastBuilder};
use vstd::prelude::*;

verus! {

/// One step of loading a collector, after its object is loaded.
#[derive(Clone, Copy, Debug, PartialEq, Eq)]
pub enum SetupStep {
    /// Write the configuration record into this map.
    Config(&'static str),
    /// Pin this map in the pin directory.
    Pin(&'static str),
    /// Attach this program.
    Attach(&'static str),
    /// Run this iterator program once to fill the maps.
    Iterate(&'static str),
    /// Run this program once to initialise the collector.
    Init(&'static str),
}

/// A setup step with its name as text.
pub enum StepView {
    Config(Seq<char>),
    Pin(Seq<char>),
    Attach(Seq<char>),
    Iterate(Seq<char>),
    Init(Seq<char>),
}

impl View for SetupStep {
    type V = StepView;

    open spec fn view(&self) -> StepView {
        match self {
            SetupStep::Config(s) => StepView::Config(s@),
            SetupStep::Pin(s) => StepView::Pin(s@),
            SetupStep::Attach(s) => StepView::Attach(s@),
            SetupStep::Iterate(s) => StepView::Iterate(s@),
            SetupStep::Init(s) => StepView::Init(s@),
        }
    }
}

/// The pin steps of a collector, when maps are pinned.
pub open spec fn pins(pinning: bool, names: Seq<Seq<char>>) -> Seq<StepView> {
    if pinning {
        names.map_values(|n: Seq<char>| StepView::Pin(n))
    } else {
        seq![]
    }
}

/// The steps that load collector `c`, in order: its configuration, the maps
/// it pins (when `pinning`), the programs it attaches, its iterators and its
/// initialisation. The socket collector pins its map after its iterators.
pub open spec fn setup_plan(c: Collector, pinning: bool) -> Seq<StepView> {
    match c {
        Collector::Cpu => seq![StepView::Config("cpu_config"@)] + pins(pinning, seq!["cpu_data"@])
            + seq![StepView::Init("procfast_cpu_init"@)],
        Collector::Mem => seq![StepView::Config("mem_config"@)] + pins(pinning, seq!["mem_data"@])
            + seq![
            StepView::Attach("fexit_si_meminfo"@),
            StepView::Attach("fexit_si_mem_available"@),
            StepView::Init("procfast_mem_init"@),
        ],
        Collector::Net => seq![StepView::Config("net_config"@)] + pins(pinning, seq!["net_data"@])
            + seq![StepView::Attach("fexit_dev_get_stats"@), StepView::Init("procfast_net_init"@)],
        Collector::Disk => seq![StepView::Config("disk_config"@)] + pins(pinning, seq!["disk_data"@])
            + seq![
            StepView::Attach("fentry_diskstats_show"@),
            StepView::Attach("block_rq_complete"@),
            StepView::Init("procfast_disk_init"@),
        ],
        Collector::Thermal => seq![StepView::Config("thermal_config"@)] + pins(
            pinning,
            seq!["thermal_data"@],
        ) + seq![
            StepView::Attach("fexit_thermal_zone_get_temp"@),
            StepView::Init("procfast_thermal_init"@),
        ],
        Collector::Irq => pins(pinning, seq!["irq_counts"@, "irq_metadata"@]) + seq![
            StepView::Attach("fentry_handle_irq_event"@),
            StepView::Attach("softirq_entry"@),
            StepView::Init("procfast_irq_init"@),
        ],
        Collector::Proc => seq![StepView::Config("proc_config"@)] + pins(
            pinning,
            seq!["proc_header"@, "proc_stats"@, "proc_events"@],
        ) + seq![
            StepView::Attach("procfast_sched_switch"@),
            StepView::Attach("sched_process_fork"@),
            StepView::Attach("sched_process_exec"@),
            StepView::Attach("sched_process_exit"@),
            StepView::Iterate("procfast_proc_dump_task"@),
            StepView::Init("procfast_proc_init"@),
        ],
        Collector::Fd => pins(pinning, seq!["fd_entries"@]) + seq![
            StepView::Attach("procfast_fexit_openat2"@),
            StepView::Attach("procfast_fentry_close_fd"@),
            StepView::Iterate("procfast_fd_dump_task_file"@),
        ],
        Collector::Sock => seq![
            StepView::Iterate("procfast_iter_tcp"@),
            StepView::Iterate("procfast_iter_udp"@),
            StepView::Iterate("procfast_iter_unix"@),
        ] + pins(pinning, seq!["sock_entries"@]),
    }
}

/// The kind of a setup step.
pub enum StepKind {
    Config,
    Pin,
    Attach,
    Iterate,
    Init,
}

/// The name a step carries, if it is of kind `k`.
pub open spec fn named_as(s: StepView, k: StepKind) -> Option<Seq<char>> {
    match (s, k) {
        (StepView::Config(n), StepKind::Config) => Some(n),
        (StepView::Pin(n), StepKind::Pin) => Some(n),
        (StepView::Attach(n), StepKind::Attach) => Some(n),
        (StepView::Iterate(n), StepKind::Iterate) => Some(n),
        (StepView::Init(n), StepKind::Init) => Some(n),
        _ => None,
    }
}

/// The names of the steps of kind `k` in `steps`, in order.
pub open spec fn names_of_kind(steps: Seq<StepView>, k: StepKind) -> Seq<Seq<char>>
    decreases steps.len(),
{
    if steps.len() == 0 {
        seq![]
    } else {
        let rest = names_of_kind(steps.drop_first(), k);
        match named_as(steps[0], k) {
            Some(n) => seq![n] + rest,
            None => rest,
        }
    }
}

/// The kernel programs each collector attaches, in the order it attaches them.
pub open spec fn attached_hooks(c: Collector) -> Seq<Seq<char>> {
    match c {
        Collector::Cpu => seq![],
        Collector::Mem => seq!["fexit_si_meminfo"@, "fexit_si_mem_available"@],
        Collector::Net => seq!["fexit_dev_get_stats"@],
        Collector::Disk => seq!["fentry_diskstats_show"@, "block_rq_complete"@],
        Collector::Thermal => seq!["fexit_thermal_zone_get_temp"@],
        Collector::Irq => seq!["fentry_handle_irq_event"@, "softirq_entry"@],
        Collector::Proc => seq![
            "procfast_sched_switch"@,
            "sched_process_fork"@,
            "sched_process_exec"@,
            "sched_process_exit"@,
        ],
        Collector::Fd => seq!["procfast_fexit_openat2"@, "procfast_fentry_close_fd"@],
        Collector::Sock => seq![],
    }
}

/// The maps each collector shares with readers, in the order it pins them.
pub open spec fn shared_maps(c: Collector) -> Seq<Seq<char>> {
    match c {
        Collector::Cpu => seq!["cpu_data"@],
        Collector::Mem => seq!["mem_data"@],
        Collector::Net => seq!["net_data"@],
        Collector::Disk => seq!["disk_data"@],
        Collector::Thermal => seq!["thermal_data"@],
        Collector::Irq => seq!["irq_counts"@, "irq_metadata"@],
        Collector::Proc => seq!["proc_header"@, "proc_stats"@, "proc_events"@],
        Collector::Fd => seq!["fd_entries"@],
        Collector::Sock => seq!["sock_entries"@],
    }
}

/// The iterator programs each collector runs once to fill its maps.
pub open spec fn dump_iterators(c: Collector) -> Seq<Seq<char>> {
    match c {
        Collector::Proc => seq!["procfast_proc_dump_task"@],
        Collector::Fd => seq!["procfast_fd_dump_task_file"@],
        Collector::Sock => seq![
            "procfast_iter_tcp"@,
            "procfast_iter_udp"@,
            "procfast_iter_unix"@,
        ],
        _ => seq![],
    }
}

proof fn lemma_names_of_kind_concat(a: Seq<StepView>, b: Seq<StepView>, k: StepKind)
    ensures
        names_of_kind(a + b, k) == names_of_kind(a, k) + names_of_kind(b, k),
    decreases a.len(),
{
    if a.len() == 0 {
        assert(a + b =~= b);
        assert(names_of_kind(a, k) + names_of_kind(b, k) =~= names_of_kind(b, k));
    } else {
        lemma_names_of_kind_concat(a.drop_first(), b, k);
        assert((a + b).drop_first() =~= a.drop_first() + b);
        assert((a + b)[0] == a[0]);
        match named_as(a[0], k) {
            Some(n) => {
                assert(seq![n] + (names_of_kind(a.drop_first(), k) + names_of_kind(b, k))
                    =~= (seq![n] + names_of_kind(a.drop_first(), k)) + names_of_kind(b, k));
            },
            None => {},
        }
    }
}

proof fn lemma_names_of_pins(pinning: bool, names: Seq<Seq<char>>, k: StepKind)
    ensures
        names_of_kind(pins(pinning, names), k) == (if pinning && k == StepKind::Pin {
            names
        } else {
            seq![]
        }),
    decreases names.len(),
{
    if pinning && names.len() > 0 {
        let ps = pins(pinning, names);
        lemma_names_of_pins(pinning, names.drop_first(), k);
        assert(ps.drop_first() =~= pins(pinning, names.drop_first()));
        assert(ps[0] == StepView::Pin(names[0]));
        if k == StepKind::Pin {
            assert(seq![names[0]] + names.drop_first() =~= names);
        }
    } else if pinning {
        assert(pins(pinning, names) =~= Seq::<StepView>::empty());
    }
}

/// The name of `s` as a list, when it is of kind `k`; empty otherwise.
pub open spec fn name_list(s: StepView, k: StepKind) -> Seq<Seq<char>> {
    match named_as(s, k) {
        Some(n) => seq![n],
        None => seq![],
    }
}

proof fn lemma_names_of_one(s: StepView, k: StepKind)
    ensures
        names_of_kind(seq![s], k) == name_list(s, k),
{
    reveal_with_fuel(names_of_kind, 2);
    assert(seq![s].drop_first() =~= Seq::<StepView>::empty());
    assert(seq![s][0] == s);
    match named_as(s, k) {
        Some(n) => {
            assert(seq![n] + Seq::<Seq<char>>::empty() =~= seq![n]);
        },
        None => {},
    }
}

proof fn lemma_names_of_two(a: StepView, b: StepView, k: StepKind)
    ensures
        names_of_kind(seq![a, b], k) == name_list(a, k) + name_list(b, k),
{
    assert(seq![a, b] =~= seq![a] + seq![b]);
    lemma_names_of_kind_concat(seq![a], seq![b], k);
    lemma_names_of_one(a, k);
    lemma_names_of_one(b, k);
}

proof fn lemma_names_of_three(a: StepView, b: StepView, c: StepView, k: StepKind)
    ensures
        names_of_kind(seq![a, b, c], k) == name_list(a, k) + name_list(b, k) + name_list(c, k),
{
    assert(seq![a, b, c] =~= seq![a, b] + seq![c]);
    lemma_names_of_kind_concat(seq![a, b], seq![c], k);
    lemma_names_of_two(a, b, k);
    lemma_names_of_one(c, k);
}

proof fn lemma_names_of_six(
    a: StepView,
    b: StepView,
    c: StepView,
    d: StepView,
    e: StepView,
    f: StepView,
    k: StepKind,
)
    ensures
        names_of_kind(seq![a, b, c, d, e, f], k) == name_list(a, k) + name_list(b, k) + name_list(
            c,
            k,
        ) + name_list(d, k) + name_list(e, k) + name_list(f, k),
{
    assert(seq![a, b, c, d, e, f] =~= seq![a, b, c] + seq![d, e, f]);
    lemma_names_of_kind_concat(seq![a, b, c], seq![d, e, f], k);
    lemma_names_of_three(a, b, c, k);
    lemma_names_of_three(d, e, f, k);
    assert(name_list(a, k) + name_list(b, k) + name_list(c, k) + (name_list(d, k) + name_list(
        e,
        k,
    ) + name_list(f, k)) =~= name_list(a, k) + name_list(b, k) + name_list(c, k) + name_list(d, k)
        + name_list(e, k) + name_list(f, k));
}

/// The configuration map each collector writes its settings into.
pub open spec fn config_maps(c: Collector) -> Seq<Seq<char>> {
    match c {
        Collector::Cpu => seq!["cpu_config"@],
        Collector::Mem => seq!["mem_config"@],
        Collector::Net => seq!["net_config"@],
        Collector::Disk => seq!["disk_config"@],
        Collector::Thermal => seq!["thermal_config"@],
        Collector::Proc => seq!["proc_config"@],
        _ => seq![],
    }
}

/// The program each collector runs once to initialise itself.
pub open spec fn init_programs(c: Collector) -> Seq<Seq<char>> {
    match c {
        Collector::Cpu => seq!["procfast_cpu_init"@],
        Collector::Mem => seq!["procfast_mem_init"@],
        Collector::Net => seq!["procfast_net_init"@],
        Collector::Disk => seq!["procfast_disk_init"@],
        Collector::Thermal => seq!["procfast_thermal_init"@],
        Collector::Irq => seq!["procfast_irq_init"@],
        Collector::Proc => seq!["procfast_proc_init"@],
        _ => seq![],
    }
}

/// The names of the steps of one kind that loading collector `c` takes.
pub open spec fn planned_names(c: Collector, pinning: bool, k: StepKind) -> Seq<Seq<char>> {
    match k {
        StepKind::Config => config_maps(c),
        StepKind::Pin => if pinning {
            shared_maps(c)
        } else {
            seq![]
        },
        StepKind::Attach => attached_hooks(c),
        StepKind::Iterate => dump_iterators(c),
        StepKind::Init => init_programs(c),
    }
}

proof fn lemma_plan_shape(
    a: Seq<StepView>,
    pinning: bool,
    maps: Seq<Seq<char>>,
    b: Seq<StepView>,
    k: StepKind,
)
    ensures
        names_of_kind(a + pins(pinning, maps) + b, k) == names_of_kind(a, k) + (if pinning && k
            == StepKind::Pin {
            maps
        } else {
            seq![]
        }) + names_of_kind(b, k),
{
    lemma_names_of_kind_concat(a + pins(pinning, maps), b, k);
    lemma_names_of_kind_concat(a, pins(pinning, maps), k);
    lemma_names_of_pins(pinning, maps, k);
}

proof fn lemma_plan_names(c: Collector, pinning: bool, k: StepKind)
    ensures
        names_of_kind(setup_plan(c, pinning), k) == planned_names(c, pinning, k),
{
    let plan = setup_plan(c, pinning);
    let none = Seq::<StepView>::empty();
    assert(names_of_kind(none, k) == Seq::<Seq<char>>::empty());
    match c {
        Collector::Cpu => {
            let a = seq![StepView::Config("cpu_config"@)];
            let b = seq![StepView::Init("procfast_cpu_init"@)];
            lemma_plan_shape(a, pinning, seq!["cpu_data"@], b, k);
            lemma_names_of_one(StepView::Config("cpu_config"@), k);
            lemma_names_of_one(StepView::Init("procfast_cpu_init"@), k);
        },
        Collector::Mem => {
            let a = seq![StepView::Config("mem_config"@)];
            let x = StepView::Attach("fexit_si_meminfo"@);
            let y = StepView::Attach("fexit_si_mem_available"@);
            let z = StepView::Init("procfast_mem_init"@);
            lemma_plan_shape(a, pinning, seq!["mem_data"@], seq![x, y, z], k);
            lemma_names_of_one(StepView::Config("mem_config"@), k);
            lemma_names_of_three(x, y, z, k);
        },
        Collector::Net => {
            let a = seq![StepView::Config("net_config"@)];
            let x = StepView::Attach("fexit_dev_get_stats"@);
            let y = StepView::Init("procfast_net_init"@);
            lemma_plan_shape(a, pinning, seq!["net_data"@], seq![x, y], k);
            lemma_names_of_one(StepView::Config("net_config"@), k);
            lemma_names_of_two(x, y, k);
        },
        Collector::Disk => {
            let a = seq![StepView::Config("disk_config"@)];
            let x = StepView::Attach("fentry_diskstats_show"@);
            let y = StepView::Attach("block_rq_complete"@);
            let z = StepView::Init("procfast_disk_init"@);
            lemma_plan_shape(a, pinning, seq!["disk_data"@], seq![x, y, z], k);
            lemma_names_of_one(StepView::Config("disk_config"@), k);
            lemma_names_of_three(x, y, z, k);
        },
        Collector::Thermal => {
            let a = seq![StepView::Config("thermal_config"@)];
            let x = StepView::Attach("fexit_thermal_zone_get_temp"@);
            let y = StepView::Init("procfast_thermal_init"@);
            lemma_plan_shape(a, pinning, seq!["thermal_data"@], seq![x, y], k);
            lemma_names_of_one(StepView::Config("thermal_config"@), k);
            lemma_names_of_two(x, y, k);
        },
        Collector::Irq => {
            let x = StepView::Attach("fentry_handle_irq_event"@);
            let y = StepView::Attach("softirq_entry"@);
            let z = StepView::Init("procfast_irq_init"@);
            let maps = seq!["irq_counts"@, "irq_metadata"@];
            lemma_plan_shape(none, pinning, maps, seq![x, y, z], k);
            assert(none + pins(pinning, maps) =~= pins(pinning, maps));
            lemma_names_of_three(x, y, z, k);
        },
        Collector::Proc => {
            let a = seq![StepView::Config("proc_config"@)];
            let maps = seq!["proc_header"@, "proc_stats"@, "proc_events"@];
            let s1 = StepView::Attach("procfast_sched_switch"@);
            let s2 = StepView::Attach("sched_process_fork"@);
            let s3 = StepView::Attach("sched_process_exec"@);
            let s4 = StepView::Attach("sched_process_exit"@);
            let s5 = StepView::Iterate("procfast_proc_dump_task"@);
            let s6 = StepView::Init("procfast_proc_init"@);
            lemma_plan_shape(a, pinning, maps, seq![s1, s2, s3, s4, s5, s6], k);
            lemma_names_of_one(StepView::Config("proc_config"@), k);
            lemma_names_of_six(s1, s2, s3, s4, s5, s6, k);
        },
        Collector::Fd => {
            let x = StepView::Attach("procfast_fexit_openat2"@);
            let y = StepView::Attach("procfast_fentry_close_fd"@);
            let z = StepView::Iterate("procfast_fd_dump_task_file"@);
            let maps = seq!["fd_entries"@];
            lemma_plan_shape(none, pinning, maps, seq![x, y, z], k);
            assert(none + pins(pinning, maps) =~= pins(pinning, maps));
            lemma_names_of_three(x, y, z, k);
        },
        Collector::Sock => {
            let x = StepView::Iterate("procfast_iter_tcp"@);
            let y = StepView::Iterate("procfast_iter_udp"@);
            let z = StepView::Iterate("procfast_iter_unix"@);
            let maps = seq!["sock_entries"@];
            lemma_plan_shape(seq![x, y, z], pinning, maps, none, k);
            assert(seq![x, y, z] + pins(pinning, maps) + none =~= seq![x, y, z] + pins(
                pinning,
                maps,
            ));
            lemma_names_of_three(x, y, z, k);
        },
    }
    assert(names_of_kind(plan, k) =~= planned_names(c, pinning, k));
}

/// Loading a collector writes its configuration map, pins exactly the maps it
/// shares (and only when maps are pinned), attaches every kernel program the
/// collector uses, runs its iterators and its initialisation program, each
/// kind of step in the collector's own order; the memory collector, for
/// one, attaches both `fexit_si_meminfo` and `fexit_si_mem_available`.
pub proof fn law_setup_steps_by_kind(c: Collector, pinning: bool)
    ensures
        names_of_kind(setup_plan(c, pinning), StepKind::Config) == config_maps(c),
        names_of_kind(setup_plan(c, pinning), StepKind::Pin) == (if pinning {
            shared_maps(c)
        } else {
            seq![]
        }),
        names_of_kind(setup_plan(c, pinning), StepKind::Attach) == attached_hooks(c),
        names_of_kind(setup_plan(c, pinning), StepKind::Iterate) == dump_iterators(c),
        names_of_kind(setup_plan(c, pinning), StepKind::Init) == init_programs(c),
{
    lemma_plan_names(c, pinning, StepKind::Config);
    lemma_plan_names(c, pinning, StepKind::Pin);
    lemma_plan_names(c, pinning, StepKind::Attach);
    lemma_plan_names(c, pinning, StepKind::Iterate);
    lemma_plan_names(c, pinning, StepKind::Init);
}

fn push_pins(v: &mut Vec<SetupStep>, pinning: bool, names: &[&'static str])
    ensures
        final(v)@.map_values(|s: SetupStep| s@) == old(v)@.map_values(|s: SetupStep| s@) + pins(
            pinning,
            names@.map_values(|n: &'static str| n@),
        ),
{
    let ghost start = v@.map_values(|s: SetupStep| s@);
    if !pinning {
        assert(v@.map_values(|s: SetupStep| s@) =~= start + Seq::<StepView>::empty());
        return;
    }
    let mut i: usize = 0;
    while i < names.len()
        invariant
            pinning,
            i <= names@.len(),
            v@.map_values(|s: SetupStep| s@) == start + names@.take(i as int).map_values(
                |n: &'static str| StepView::Pin(n@),
            ),
        decreases names@.len() - i,
    {
        let ghost old = v@;
        v.push(SetupStep::Pin(names[i]));
        assert(v@.map_values(|s: SetupStep| s@) =~= old.map_values(|s: SetupStep| s@).push(
            StepView::Pin(names@[i as int]@),
        ));
        assert(names@.take(i + 1) =~= names@.take(i as int).push(names@[i as int]));
        i = i + 1;
        assert(v@.map_values(|s: SetupStep| s@) =~= start + names@.take(i as int).map_values(
            |n: &'static str| StepView::Pin(n@),
        ));
    }
    assert(names@.take(i as int) =~= names@);
    assert(names@.map_values(|n: &'static str| StepView::Pin(n@)) =~= names@.map_values(
        |n: &'static str| n@,
    ).map_values(|n: Seq<char>| StepView::Pin(n)));
}

fn push_steps(v: &mut Vec<SetupStep>, steps: &[SetupStep])
    ensures
        final(v)@.map_values(|s: SetupStep| s@) == old(v)@.map_values(|s: SetupStep| s@)
            + steps@.map_values(|s: SetupStep| s@),
{
    let ghost start = v@.map_values(|s: SetupStep| s@);
    let mut i: usize = 0;
    while i < steps.len()
        invariant
            i <= steps@.len(),
            v@.map_values(|s: SetupStep| s@) == start + steps@.take(i as int).map_values(
                |s: SetupStep| s@,
            ),
        decreases steps@.len() - i,
    {
        let ghost old = v@;
        v.push(steps[i]);
        assert(v@.map_values(|s: SetupStep| s@) =~= old.map_values(|s: SetupStep| s@).push(
            steps@[i as int]@,
        ));
        assert(steps@.take(i + 1) =~= steps@.take(i as int).push(steps@[i as int]));
        i = i + 1;
        assert(v@.map_values(|s: SetupStep| s@) =~= start + steps@.take(i as int).map_values(
            |s: SetupStep| s@,
        ));
    }
    assert(steps@.take(i as int) =~= steps@);
}

impl Collector {
    /// The steps that load this collector, in order; pin steps only when
    /// maps are pinned.
    #[verifier::rlimit(40)]
    pub fn setup_steps(self, pinning: bool) -> (r: Vec<SetupStep>)
        ensures
            r@.map_values(|s: SetupStep| s@) == setup_plan(self, pinning),
    {
        let mut v: Vec<SetupStep> = Vec::new();
        assert(v@.map_values(|s: SetupStep| s@) =~= Seq::<StepView>::empty());
        match self {
            Collector::Cpu => {
                push_steps(&mut v, &[SetupStep::Config("cpu_config")]);
                push_pins(&mut v, pinning, &["cpu_data"]);
                push_steps(&mut v, &[SetupStep::Init("procfast_cpu_init")]);
            },
            Collector::Mem => {
                push_steps(&mut v, &[SetupStep::Config("mem_config")]);
                push_pins(&mut v, pinning, &["mem_data"]);
                push_steps(
                    &mut v,
                    &[
                        SetupStep::Attach("fexit_si_meminfo"),
                        SetupStep::Attach("fexit_si_mem_available"),
                        SetupStep::Init("procfast_mem_init"),
                    ],
                );
            },
            Collector::Net => {
                push_steps(&mut v, &[SetupStep::Config("net_config")]);
                push_pins(&mut v, pinning, &["net_data"]);
                push_steps(
                    &mut v,
                    &[SetupStep::Attach("fexit_dev_get_stats"), SetupStep::Init("procfast_net_init")],
                );
            },
            Collector::Disk => {
                push_steps(&mut v, &[SetupStep::Config("disk_config")]);
                push_pins(&mut v, pinning, &["disk_data"]);
                push_steps(
                    &mut v,
                    &[
                        SetupStep::Attach("fentry_diskstats_show"),
                        SetupStep::Attach("block_rq_complete"),
                        SetupStep::Init("procfast_disk_init"),
                    ],
                );
            },
            Collector::Thermal => {
                push_steps(&mut v, &[SetupStep::Config("thermal_config")]);
                push_pins(&mut v, pinning, &["thermal_data"]);
                push_steps(
                    &mut v,
                    &[
                        SetupStep::Attach("fexit_thermal_zone_get_temp"),
                        SetupStep::Init("procfast_thermal_init"),
                    ],
                );
            },
            Collector::Irq => {
                push_pins(&mut v, pinning, &["irq_counts", "irq_metadata"]);
                push_steps(
                    &mut v,
                    &[
                        SetupStep::Attach("fentry_handle_irq_event"),
                        SetupStep::Attach("softirq_entry"),
                        SetupStep::Init("procfast_irq_init"),
                    ],
                );
            },
            Collector::Proc => {
                push_steps(&mut v, &[SetupStep::Config("proc_config")]);
                push_pins(&mut v, pinning, &["proc_header", "proc_stats", "proc_events"]);
                push_steps(
                    &mut v,
                    &[
                        SetupStep::Attach("procfast_sched_switch"),
                        SetupStep::Attach("sched_process_fork"),
                        SetupStep::Attach("sched_process_exec"),
                        SetupStep::Attach("sched_process_exit"),
                        SetupStep::Iterate("procfast_proc_dump_task"),
                        SetupStep::Init("procfast_proc_init"),
                    ],
                );
            },
            Collector::Fd => {
                push_pins(&mut v, pinning, &["fd_entries"]);
                push_steps(
                    &mut v,
                    &[
                        SetupStep::Attach("procfast_fexit_openat2"),
                        SetupStep::Attach("procfast_fentry_close_fd"),
                        SetupStep::Iterate("procfast_fd_dump_task_file"),
                    ],
                );
            },
            Collector::Sock => {
                push_steps(
                    &mut v,
                    &[
                        SetupStep::Iterate("procfast_iter_tcp"),
                        SetupStep::Iterate("procfast_iter_udp"),
                        SetupStep::Iterate("procfast_iter_unix"),
                    ],
                );
                push_pins(&mut v, pinning, &["sock_entries"]);
            },
        }
        assert(v@.map_values(|s: SetupStep| s@) =~= setup_plan(self, pinning));
        v
    }
}

/// A run of setup over the planned collectors: each is tried in order; one
/// that fails is skipped, unless it is required, which ends the run.
pub struct SetupRun {
    plan: Vec<Collector>,
    next: usize,
    loaded: Vec<Collector>,
    aborted: bool,
}

impl SetupRun {
    /// The collectors to try, in order.
    pub closed spec fn planned(&self) -> Seq<Collector> {
        self.plan@
    }

    /// The collectors that loaded, in order.
    pub closed spec fn loaded(&self) -> Seq<Collector> {
        self.loaded@
    }

    /// How many planned collectors have been tried.
    pub closed spec fn tried(&self) -> nat {
        self.next as nat
    }

    /// A required collector failed.
    pub closed spec fn aborted(&self) -> bool {
        self.aborted
    }

    /// Only tried collectors loaded, and unless the run ended, every tried
    /// required collector loaded.
    pub closed spec fn wf(&self) -> bool {
        &&& self.next <= self.plan@.len()
        &&& forall|i: int|
            0 <= i < self.loaded@.len() ==> self.plan@.take(self.next as int).contains(
                #[trigger] self.loaded@[i],
            )
        &&& !self.aborted ==> forall|j: int|
            0 <= j < self.next && #[trigger] self.plan@[j] == Collector::Cpu
                ==> self.loaded@.contains(Collector::Cpu)
    }

    /// A run over the collectors that `b` enables, none tried yet.
    pub fn new(b: &ProcfastBuilder) -> (r: Self)
        ensures
            r.wf(),
            r.planned() == enabled_collectors(b@),
            r.loaded() == Seq::<Collector>::empty(),
            r.tried() == 0,
            !r.aborted(),
    {
        SetupRun { plan: b.collectors(), next: 0, loaded: Vec::new(), aborted: false }
    }

    /// The collector to try next, unless the run is over.
    pub fn next_collector(&self) -> (r: Option<Collector>)
        requires
            self.wf(),
        ensures
            r == (if !self.aborted() && self.tried() < self.planned().len() {
                Some(self.planned()[self.tried() as int])
            } else {
                None
            }),
    {
        if !self.aborted && self.next < self.plan.len() {
            Some(self.plan[self.next])
        } else {
            None
        }
    }

    /// Records whether the collector tried next loaded.
    pub fn record(&mut self, ok: bool)
        requires
            old(self).wf(),
            !old(self).aborted(),
            old(self).tried() < old(self).planned().len(),
        ensures
            final(self).wf(),
            final(self).planned() == old(self).planned(),
            final(self).tried() == old(self).tried() + 1,
            ok ==> final(self).loaded() == old(self).loaded().push(
                old(self).planned()[old(self).tried() as int],
            ) && !final(self).aborted(),
            !ok ==> final(self).loaded() == old(self).loaded() && final(self).aborted() == (old(
                self,
            ).planned()[old(self).tried() as int] == Collector::Cpu),
    {
        let c = self.plan[self.next];
        let ghost before = self.plan@.take(self.next as int);
        let ghost old_loaded = self.loaded@;
        assert(self.plan@.take(self.next + 1) =~= before.push(c));
        if ok {
            self.loaded.push(c);
            assert(self.loaded@[self.loaded@.len() - 1] == c);
        } else if c.is_required() {
            self.aborted = true;
        }
        let n = self.plan.len();
        assert(self.next < n);
        self.next = self.next + 1;
        proof {
            let now = self.plan@.take(self.next as int);
            assert forall|i: int| 0 <= i < self.loaded@.len() implies now.contains(
                #[trigger] self.loaded@[i],
            ) by {
                if i < old_loaded.len() {
                    assert(self.loaded@[i] == old_loaded[i]);
                    let k = choose|k: int| 0 <= k < before.len() && before[k] == old_loaded[i];
                    assert(now[k] == before[k]);
                } else {
                    assert(now[now.len() - 1] == c);
                }
            }
            if !self.aborted {
                assert forall|j: int|
                    0 <= j < self.next && #[trigger] self.plan@[j] == Collector::Cpu implies self.loaded@.contains(
                    Collector::Cpu,
                ) by {
                    if j < self.next - 1 {
                        let k = choose|k: int|
                            0 <= k < old_loaded.len() && old_loaded[k] == Collector::Cpu;
                        assert(self.loaded@[k] == Collector::Cpu);
                    } else {
                        assert(ok);
                        assert(self.loaded@[self.loaded@.len() - 1] == Collector::Cpu);
                    }
                }
            }
        }
    }

    /// Whether a required collector failed.
    pub fn is_aborted(&self) -> (r: bool)
        ensures
            r == self.aborted(),
    {
        self.aborted
    }

    /// The collectors that loaded, in order.
    pub fn loaded_collectors(&self) -> (r: Vec<Collector>)
        ensures
            r@ == self.loaded(),
    {
        self.loaded.clone()
    }
}

proof fn lemma_concat_contains(a: Seq<Collector>, b: Seq<Collector>, c: Collector)
    ensures
        (a + b).contains(c) == (a.contains(c) || b.contains(c)),
{
    if a.contains(c) {
        let k = choose|k: int| 0 <= k < a.len() && a[k] == c;
        assert((a + b)[k] == c);
    }
    if b.contains(c) {
        let k = choose|k: int| 0 <= k < b.len() && b[k] == c;
        assert((a + b)[a.len() + k] == c);
    }
    if (a + b).contains(c) {
        let k = choose|k: int| 0 <= k < (a + b).len() && (a + b)[k] == c;
        if k < a.len() {
            assert(a[k] == c);
        } else {
            assert(b[k - a.len()] == c);
        }
    }
}

/// The piece of the plan for one setting.
spec fn piece(on: bool, c: Collector) -> Seq<Collector> {
    if on {
        seq![c]
    } else {
        seq![]
    }
}

proof fn lemma_piece_contains(on: bool, c: Collector, d: Collector)
    ensures
        piece(on, c).contains(d) == (on && c == d),
{
    if on && c == d {
        assert(piece(on, c)[0] == d);
    }
}

/// The plan holds the CPU collector exactly when it is enabled, and the
/// descriptor and socket collectors exactly when descriptor tracking is.
pub proof fn law_plan_follows_settings(v: BuilderView)
    ensures
        enabled_collectors(v).contains(Collector::Cpu) == v.cpu,
        enabled_collectors(v).contains(Collector::Fd) == v.fd,
        enabled_collectors(v).contains(Collector::Sock) == v.fd,
{
    let fdp: Seq<Collector> = if v.fd { seq![Collector::Fd, Collector::Sock] } else { seq![] };
    let s1 = piece(v.cpu, Collector::Cpu);
    let s2 = s1 + piece(v.mem, Collector::Mem);
    let s3 = s2 + piece(v.net, Collector::Net);
    let s4 = s3 + piece(v.disk, Collector::Disk);
    let s5 = s4 + piece(v.thermal, Collector::Thermal);
    let s6 = s5 + piece(v.irq, Collector::Irq);
    let s7 = s6 + piece(v.proc_stats, Collector::Proc);
    assert(enabled_collectors(v) =~= s7 + fdp);
    assert forall|d: Collector| #![auto] d == Collector::Cpu || d == Collector::Fd || d == Collector::Sock implies
        (s7 + fdp).contains(d) == ((d == Collector::Cpu && v.cpu) || (d != Collector::Cpu && v.fd)) by {
        lemma_piece_contains(v.cpu, Collector::Cpu, d);
        lemma_piece_contains(v.mem, Collector::Mem, d);
        lemma_piece_contains(v.net, Collector::Net, d);
        lemma_piece_contains(v.disk, Collector::Disk, d);
        lemma_piece_contains(v.thermal, Collector::Thermal, d);
        lemma_piece_contains(v.irq, Collector::Irq, d);
        lemma_piece_contains(v.proc_stats, Collector::Proc, d);
        lemma_concat_contains(s1, piece(v.mem, Collector::Mem), d);
        lemma_concat_contains(s2, piece(v.net, Collector::Net), d);
        lemma_concat_contains(s3, piece(v.disk, Collector::Disk), d);
        lemma_concat_contains(s4, piece(v.thermal, Collector::Thermal), d);
        lemma_concat_contains(s5, piece(v.irq, Collector::Irq), d);
        lemma_concat_contains(s6, piece(v.proc_stats, Collector::Proc), d);
        lemma_concat_contains(s7, fdp, d);
        if v.fd {
            assert(fdp[0] == Collector::Fd);
            assert(fdp[1] == Collector::Sock);
            assert(fdp.contains(d) == (d == Collector::Fd || d == Collector::Sock));
        } else {
            assert(!fdp.contains(d));
        }
    }
    assert((s7 + fdp).contains(Collector::Cpu) == v.cpu);
    assert((s7 + fdp).contains(Collector::Fd) == v.fd);
    assert((s7 + fdp).contains(Collector::Sock) == v.fd);
}

/// A run of the settings' plan that tried every collector without a
/// required one failing has loaded the CPU collector exactly when it is
/// enabled, and has loaded descriptors or sockets only when descriptor
/// tracking is enabled.
pub proof fn law_finished_run(r: SetupRun, v: BuilderView)
    requires
        r.wf(),
        r.planned() == enabled_collectors(v),
        !r.aborted(),
        r.tried() == r.planned().len(),
    ensures
        r.loaded().contains(Collector::Cpu) == v.cpu,
        r.loaded().contains(Collector::Fd) ==> v.fd,
        r.loaded().contains(Collector::Sock) ==> v.fd,
{
    law_plan_follows_settings(v);
    let p = r.planned();
    assert(p.take(p.len() as int) =~= p);
    if v.cpu {
        let j = choose|j: int| 0 <= j < p.len() && p[j] == Collector::Cpu;
        assert(r.plan@[j] == Collector::Cpu);
    }
    if r.loaded().contains(Collector::Cpu) {
        let i = choose|i: int| 0 <= i < r.loaded().len() && r.loaded()[i] == Collector::Cpu;
        assert(p.take(r.next as int).contains(r.loaded@[i]));
    }
    if r.loaded().contains(Collector::Fd) {
        let i = choose|i: int| 0 <= i < r.loaded().len() && r.loaded()[i] == Collector::Fd;
        assert(p.take(r.next as int).contains(r.loaded@[i]));
    }
    if r.loaded().contains(Collector::Sock) {
        let i = choose|i: int| 0 <= i < r.loaded().len() && r.loaded()[i] == Collector::Sock;
        assert(p.take(r.next as int).contains(r.loaded@[i]));
    }
}

} // verus!
