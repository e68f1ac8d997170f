//! Which collectors to set up and how: the builder's settings and the plan
//! that setting up follows.

use crate::bytes::u64_le_bytes;
use crate::error::ProcfastError;
use crate::types::ProcfastConfig;
use vstd::prelude::*;
use vstd::string::StringExecFns;

verus! {

/// The settings of a [`ProcfastBuilder`].
pub struct BuilderView {
    pub cpu: bool,
    pub mem: bool,
    pub net: bool,
    pub disk: bool,
    pub thermal: bool,
    pub irq: bool,
    pub proc_stats: bool,
    pub fd: bool,
    pub interval_ms: u64,
    pub allow_fallback: bool,
    pub pin_path: Option<Seq<char>>,
    pub public: bool,
}

/// Builder for configuring which metrics to collect and at what interval.
#[derive(Clone)]
pub struct ProcfastBuilder {
    enable_cpu: bool,
    enable_mem: bool,
    enable_net: bool,
    enable_disk: bool,
    enable_thermal: bool,
    enable_irq: bool,
    enable_proc: bool,
    enable_fd: bool,
    interval_ms: u64,
    allow_fallback: bool,
    pin_path: Option<String>,
    public: bool,
}

impl View for ProcfastBuilder {
    type V = BuilderView;

    closed spec fn view(&self) -> BuilderView {
        BuilderView {
            cpu: self.enable_cpu,
            mem: self.enable_mem,
            net: self.enable_net,
            disk: self.enable_disk,
            thermal: self.enable_thermal,
            irq: self.enable_irq,
            proc_stats: self.enable_proc,
            fd: self.enable_fd,
            interval_ms: self.interval_ms,
            allow_fallback: self.allow_fallback,
            pin_path: match self.pin_path {
                Some(p) => Some(p@),
                None => None,
            },
            public: self.public,
        }
    }
}

/// The default settings: every collector but descriptors (and sockets),
/// 100 ms interval, no fallback, no pinning, public maps.
pub open spec fn default_settings() -> BuilderView {
    BuilderView {
        cpu: true,
        mem: true,
        net: true,
        disk: true,
        thermal: true,
        irq: true,
        proc_stats: true,
        fd: false,
        interval_ms: 100,
        allow_fallback: false,
        pin_path: None,
        public: true,
    }
}

impl Default for ProcfastBuilder {
    fn default() -> (r: Self)
        ensures
            r@ == default_settings(),
    {
        Self::new()
    }
}

impl ProcfastBuilder {
    pub fn new() -> (r: Self)
        ensures
            r@ == default_settings(),
    {
        ProcfastBuilder {
            enable_cpu: true,
            enable_mem: true,
            enable_net: true,
            enable_disk: true,
            enable_thermal: true,
            enable_irq: true,
            enable_proc: true,
            enable_fd: false,
            interval_ms: 100,
            allow_fallback: false,
            pin_path: None,
            public: true,
        }
    }

    pub fn cpu(self, enable: bool) -> (r: Self)
        ensures
            r@ == (BuilderView { cpu: enable, ..self@ }),
    {
        let mut s = self;
        s.enable_cpu = enable;
        s
    }

    pub fn mem(self, enable: bool) -> (r: Self)
        ensures
            r@ == (BuilderView { mem: enable, ..self@ }),
    {
        let mut s = self;
        s.enable_mem = enable;
        s
    }

    pub fn net(self, enable: bool) -> (r: Self)
        ensures
            r@ == (BuilderView { net: enable, ..self@ }),
    {
        let mut s = self;
        s.enable_net = enable;
        s
    }

    pub fn disk(self, enable: bool) -> (r: Self)
        ensures
            r@ == (BuilderView { disk: enable, ..self@ }),
    {
        let mut s = self;
        s.enable_disk = enable;
        s
    }

    pub fn thermal(self, enable: bool) -> (r: Self)
        ensures
            r@ == (BuilderView { thermal: enable, ..self@ }),
    {
        let mut s = self;
        s.enable_thermal = enable;
        s
    }

    pub fn irq(self, enable: bool) -> (r: Self)
        ensures
            r@ == (BuilderView { irq: enable, ..self@ }),
    {
        let mut s = self;
        s.enable_irq = enable;
        s
    }

    pub fn proc_stats(self, enable: bool) -> (r: Self)
        ensures
            r@ == (BuilderView { proc_stats: enable, ..self@ }),
    {
        let mut s = self;
        s.enable_proc = enable;
        s
    }

    pub fn fd(self, enable: bool) -> (r: Self)
        ensures
            r@ == (BuilderView { fd: enable, ..self@ }),
    {
        let mut s = self;
        s.enable_fd = enable;
        s
    }

    pub fn interval_ms(self, ms: u64) -> (r: Self)
        ensures
            r@ == (BuilderView { interval_ms: ms, ..self@ }),
    {
        let mut s = self;
        s.interval_ms = ms;
        s
    }

    pub fn allow_fallback(self, allow: bool) -> (r: Self)
        ensures
            r@ == (BuilderView { allow_fallback: allow, ..self@ }),
    {
        let mut s = self;
        s.allow_fallback = allow;
        s
    }

    /// Pin maps to a bpffs directory so clients can read them; maps are
    /// pinned as `{path}/{map_name}`.
    pub fn pin_path(self, path: &str) -> (r: Self)
        ensures
            r@ == (BuilderView { pin_path: Some(path@), ..self@ }),
    {
        let mut s = self;
        s.pin_path = Some(String::from_str(path));
        s
    }

    /// Allow non-root users to read pinned maps (default: true).
    pub fn public(self, public: bool) -> (r: Self)
        ensures
            r@ == (BuilderView { public: public, ..self@ }),
    {
        let mut s = self;
        s.public = public;
        s
    }
}

/// A collector that setting up may load.
#[derive(Clone, Copy, Debug, PartialEq, Eq, Structural)]
pub enum Collector {
    Cpu,
    Mem,
    Net,
    Disk,
    Thermal,
    Irq,
    Proc,
    Fd,
    Sock,
}

/// The collectors that the settings enable, in the order in which they are
/// loaded; enabling descriptors loads the socket collector after them.
pub open spec fn enabled_collectors(v: BuilderView) -> Seq<Collector> {
    (if v.cpu { seq![Collector::Cpu] } else { seq![] }) + (if v.mem {
        seq![Collector::Mem]
    } else {
        seq![]
    }) + (if v.net { seq![Collector::Net] } else { seq![] }) + (if v.disk {
        seq![Collector::Disk]
    } else {
        seq![]
    }) + (if v.thermal { seq![Collector::Thermal] } else { seq![] }) + (if v.irq {
        seq![Collector::Irq]
    } else {
        seq![]
    }) + (if v.proc_stats { seq![Collector::Proc] } else { seq![] }) + (if v.fd {
        seq![Collector::Fd, Collector::Sock]
    } else {
        seq![]
    })
}

/// A source read once after loading, so that the maps start with the
/// current state.
#[derive(Clone, Copy, Debug, PartialEq, Eq, Structural)]
pub enum Seed {
    Mem,
    Net,
    Disk,
    Thermal,
    Interrupts,
}

/// The sources to read once, in order, given the collectors that loaded.
pub open spec fn seeds_for(loaded: Seq<Collector>) -> Seq<Seed> {
    (if loaded.contains(Collector::Mem) { seq![Seed::Mem] } else { seq![] }) + (if loaded.contains(
        Collector::Net,
    ) {
        seq![Seed::Net]
    } else {
        seq![]
    }) + (if loaded.contains(Collector::Disk) { seq![Seed::Disk] } else { seq![] }) + (
    if loaded.contains(Collector::Thermal) {
        seq![Seed::Thermal]
    } else {
        seq![]
    }) + (if loaded.contains(Collector::Irq) { seq![Seed::Interrupts] } else { seq![] })
}

fn push_if(v: &mut Vec<Collector>, cond: bool, c: Collector)
    ensures
        final(v)@ == old(v)@ + (if cond { seq![c] } else { seq![] }),
{
    if cond {
        v.push(c);
    } else {
        assert(v@ =~= old(v)@ + Seq::<Collector>::empty());
    }
}

fn contains_collector(v: &[Collector], c: Collector) -> (r: bool)
    ensures
        r == v@.contains(c),
{
    let mut i: usize = 0;
    while i < v.len()
        invariant
            i <= v@.len(),
            forall|j: int| 0 <= j < i ==> v@[j] != c,
        decreases v@.len() - i,
    {
        if v[i] == c {
            return true;
        }
        i = i + 1;
    }
    false
}

fn push_seed_if(v: &mut Vec<Seed>, cond: bool, s: Seed)
    ensures
        final(v)@ == old(v)@ + (if cond { seq![s] } else { seq![] }),
{
    if cond {
        v.push(s);
    } else {
        assert(v@ =~= old(v)@ + Seq::<Seed>::empty());
    }
}

/// The sources to read once after loading, given the collectors that loaded.
pub fn seeds(loaded: &[Collector]) -> (r: Vec<Seed>)
    ensures
        r@ == seeds_for(loaded@),
{
    let mut r: Vec<Seed> = Vec::new();
    push_seed_if(&mut r, contains_collector(loaded, Collector::Mem), Seed::Mem);
    push_seed_if(&mut r, contains_collector(loaded, Collector::Net), Seed::Net);
    push_seed_if(&mut r, contains_collector(loaded, Collector::Disk), Seed::Disk);
    push_seed_if(&mut r, contains_collector(loaded, Collector::Thermal), Seed::Thermal);
    push_seed_if(&mut r, contains_collector(loaded, Collector::Irq), Seed::Interrupts);
    assert(r@ =~= seeds_for(loaded@));
    r
}

/// The maps of a collector that are pinned, in the order they are pinned.
pub open spec fn pinned_maps_of(c: Collector) -> Seq<Seq<char>> {
    match c {
        Collector::Cpu => seq!["cpu_data"@],
        Collector::Mem => seq!["mem_data"@],
        Collector::Net => seq!["net_data"@],
        Collector::Disk => seq!["disk_data"@],
        Collector::Thermal => seq!["thermal_data"@],
        Collector::Irq => seq!["irq_counts"@, "irq_metadata"@],
        Collector::Proc => seq!["proc_header"@, "proc_stats"@, "proc_events"@],
        Collector::Fd => seq!["fd_entries"@],
        Collector::Sock => seq!["sock_entries"@],
    }
}

impl Collector {
    /// The names of the maps of this collector that are pinned.
    pub fn pinned_maps(self) -> (r: Vec<&'static str>)
        ensures
            r@.map_values(|s: &'static str| s@) == pinned_maps_of(self),
    {
        let r = match self {
            Collector::Cpu => vec!["cpu_data"],
            Collector::Mem => vec!["mem_data"],
            Collector::Net => vec!["net_data"],
            Collector::Disk => vec!["disk_data"],
            Collector::Thermal => vec!["thermal_data"],
            Collector::Irq => vec!["irq_counts", "irq_metadata"],
            Collector::Proc => vec!["proc_header", "proc_stats", "proc_events"],
            Collector::Fd => vec!["fd_entries"],
            Collector::Sock => vec!["sock_entries"],
        };
        assert(r@.map_values(|s: &'static str| s@) =~= pinned_maps_of(self));
        r
    }

    /// A failure to load this collector fails the whole setup; the others
    /// are skipped with a warning.
    pub fn is_required(self) -> (r: bool)
        ensures
            r == (self == Collector::Cpu),
    {
        match self {
            Collector::Cpu => true,
            _ => false,
        }
    }
}

/// How setting up ends, given how loading the collectors went.
pub enum BuildOutcome<T> {
    /// The collectors loaded.
    Built(T),
    /// Loading failed and the settings allow falling back to `/proc`; the
    /// error says why loading failed.
    FallBack(ProcfastError),
    /// Loading failed and no fallback is allowed.
    Failed(ProcfastError),
}

impl ProcfastBuilder {
    /// The collectors to load, in order.
    #[verifier::spinoff_prover]
    #[verifier::rlimit(40)]
    pub fn collectors(&self) -> (r: Vec<Collector>)
        ensures
            r@ == enabled_collectors(self@),
    {
        let mut r: Vec<Collector> = Vec::new();
        push_if(&mut r, self.enable_cpu, Collector::Cpu);
        push_if(&mut r, self.enable_mem, Collector::Mem);
        push_if(&mut r, self.enable_net, Collector::Net);
        push_if(&mut r, self.enable_disk, Collector::Disk);
        push_if(&mut r, self.enable_thermal, Collector::Thermal);
        push_if(&mut r, self.enable_irq, Collector::Irq);
        push_if(&mut r, self.enable_proc, Collector::Proc);
        let ghost before = r@;
        if self.enable_fd {
            r.push(Collector::Fd);
            r.push(Collector::Sock);
            assert(r@ =~= before + seq![Collector::Fd, Collector::Sock]);
        } else {
            assert(r@ =~= before + Seq::<Collector>::empty());
        }
        assert(r@ =~= enabled_collectors(self@));
        r
    }

    /// The configuration handed to the collectors: the interval in
    /// nanoseconds; `None` when that many nanoseconds do not fit in 64 bits.
    pub fn config(&self) -> (r: Option<ProcfastConfig>)
        ensures
            r matches Some(c) ==> c.interval_ns == self@.interval_ms * 1_000_000,
            r is None <==> self@.interval_ms * 1_000_000 > u64::MAX,
    {
        match self.interval_ms.checked_mul(1_000_000) {
            Some(ns) => Some(ProcfastConfig { interval_ns: ns }),
            None => None,
        }
    }

    /// The pin directory, if maps are to be pinned.
    pub fn pin_dir(&self) -> (r: Option<&str>)
        ensures
            r matches Some(p) ==> self@.pin_path == Some(p@),
            r is None ==> self@.pin_path is None,
    {
        match &self.pin_path {
            Some(p) => Some(p.as_str()),
            None => None,
        }
    }

    /// Pinned maps are made readable by everyone: maps are pinned and the
    /// settings ask for public maps.
    pub fn makes_public(&self) -> (r: bool)
        ensures
            r == (self@.public && self@.pin_path is Some),
    {
        self.public && self.pin_path.is_some()
    }

    /// How setting up ends, given the outcome of loading the collectors: a
    /// failure falls back to `/proc` when the settings allow it.
    pub fn finish_build<T>(&self, attempt: Result<T, ProcfastError>) -> (r: BuildOutcome<T>)
        ensures
            match attempt {
                Ok(v) => r == BuildOutcome::Built(v),
                Err(e) => if self@.allow_fallback {
                    r == BuildOutcome::<T>::FallBack(e)
                } else {
                    r == BuildOutcome::<T>::Failed(e)
                },
            },
    {
        match attempt {
            Ok(v) => BuildOutcome::Built(v),
            Err(e) => {
                if self.allow_fallback {
                    BuildOutcome::FallBack(e)
                } else {
                    BuildOutcome::Failed(e)
                }
            },
        }
    }
}

/// The path at which a map is pinned: the directory, `/`, the map's name.
pub fn pin_file(dir: &str, name: &str) -> (r: String)
    ensures
        r@ == dir@ + seq!['/'] + name@,
{
    let slash = "/";
    proof {
        reveal_strlit("/");
    }
    let mut r = String::from_str(dir);
    r.append(slash);
    r.append(name);
    r
}

/// The bytes of a configuration record as the collectors read it.
pub fn encode_config(c: &ProcfastConfig) -> (r: [u8; 8])
    ensures
        c.stored_at(r@, 0),
{
    u64_le_bytes(c.interval_ns)
}

} // verus!
