//! Command-line options of the daemon, the exporter and the lsof tool.
//!
//! Each parser reads the whole argument vector (program name first) and
//! says what to do: run with the collected settings, print the help, or stop
//! with the error the tool reports.

use crate::pin::DEFAULT_PIN_PATH;
use crate::text::{parse_u32, parse_u64, parse_unsigned, parse_usize, same_text};
use vstd::prelude::*;
use vstd::string::{StrSliceExecFns, StringExecFns, StringSliceAdditionalSpecFns};
use vstd::utf8::encode_utf8;

verus! {

/// The texts of an argument vector.
pub open spec fn arg_texts(argv: Seq<String>) -> Seq<Seq<char>> {
    argv.map_values(|s: String| s@)
}

/// The number an argument spells for an unsigned option of at most `max`.
pub open spec fn arg_number(a: Seq<char>, max: nat) -> Option<nat> {
    parse_unsigned(encode_utf8(a), max)
}

// ---------------------------------------------------------------------------
// procfastd
// ---------------------------------------------------------------------------

/// Settings of the daemon.
pub struct DaemonArgs {
    pub interval_ms: u64,
    pub pin_path: String,
    pub enable_proc: bool,
    pub enable_fd: bool,
    pub enable_cgroup: bool,
    pub public: bool,
}

/// Settings of the daemon, with the pin path as text.
pub struct DaemonSettings {
    pub interval_ms: u64,
    pub pin_path: Seq<char>,
    pub enable_proc: bool,
    pub enable_fd: bool,
    pub enable_cgroup: bool,
    pub public: bool,
}

impl View for DaemonArgs {
    type V = DaemonSettings;

    open spec fn view(&self) -> DaemonSettings {
        DaemonSettings {
            interval_ms: self.interval_ms,
            pin_path: self.pin_path@,
            enable_proc: self.enable_proc,
            enable_fd: self.enable_fd,
            enable_cgroup: self.enable_cgroup,
            public: self.public,
        }
    }
}

/// What the daemon's command line asks for.
pub enum DaemonCommand {
    /// Start with these settings.
    Run(DaemonArgs),
    /// Print the help and exit successfully.
    Help,
    /// `--interval` is followed by something that is not a number.
    BadInterval,
    /// An option that takes a value is the last argument.
    MissingValue,
    /// An argument the daemon does not know.
    Unknown(String),
}

/// What the daemon's command line asks for, with texts as character sequences.
pub enum DaemonOutcome {
    Run(DaemonSettings),
    Help,
    BadInterval,
    MissingValue,
    Unknown(Seq<char>),
}

impl View for DaemonCommand {
    type V = DaemonOutcome;

    open spec fn view(&self) -> DaemonOutcome {
        match self {
            DaemonCommand::Run(a) => DaemonOutcome::Run(a@),
            DaemonCommand::Help => DaemonOutcome::Help,
            DaemonCommand::BadInterval => DaemonOutcome::BadInterval,
            DaemonCommand::MissingValue => DaemonOutcome::MissingValue,
            DaemonCommand::Unknown(s) => DaemonOutcome::Unknown(s@),
        }
    }
}

/// The daemon's settings before any option: 100 ms, the default pin path,
/// process tracking on, descriptor and cgroup tracking off, maps public.
pub open spec fn daemon_defaults() -> DaemonSettings {
    DaemonSettings {
        interval_ms: 100,
        pin_path: DEFAULT_PIN_PATH@,
        enable_proc: true,
        enable_fd: false,
        enable_cgroup: false,
        public: true,
    }
}

/// The outcome of reading the daemon's arguments from index `i` on, with
/// the settings `acc` collected so far.
pub open spec fn daemon_parse(argv: Seq<Seq<char>>, i: int, acc: DaemonSettings) -> DaemonOutcome
    decreases argv.len() - i,
{
    if i >= argv.len() {
        DaemonOutcome::Run(acc)
    } else {
        let a = argv[i];
        if a == "--interval"@ || a == "-i"@ {
            if i + 1 >= argv.len() {
                DaemonOutcome::MissingValue
            } else {
                match arg_number(argv[i + 1], u64::MAX as nat) {
                    Some(v) => daemon_parse(argv, i + 2, DaemonSettings { interval_ms: v as u64, ..acc }),
                    None => DaemonOutcome::BadInterval,
                }
            }
        } else if a == "--pin-path"@ || a == "-p"@ {
            if i + 1 >= argv.len() {
                DaemonOutcome::MissingValue
            } else {
                daemon_parse(argv, i + 2, DaemonSettings { pin_path: argv[i + 1], ..acc })
            }
        } else if a == "--no-proc"@ {
            daemon_parse(argv, i + 1, DaemonSettings { enable_proc: false, ..acc })
        } else if a == "--fd"@ {
            daemon_parse(argv, i + 1, DaemonSettings { enable_fd: true, ..acc })
        } else if a == "--cgroup"@ {
            daemon_parse(argv, i + 1, DaemonSettings { enable_cgroup: true, ..acc })
        } else if a == "--no-public"@ {
            daemon_parse(argv, i + 1, DaemonSettings { public: false, ..acc })
        } else if a == "--help"@ || a == "-h"@ {
            DaemonOutcome::Help
        } else {
            DaemonOutcome::Unknown(a)
        }
    }
}

/// Reads the daemon's command line (`argv[0]` is the program name).
pub fn parse_daemon_args(argv: &[String]) -> (r: DaemonCommand)
    ensures
        r@ == daemon_parse(arg_texts(argv@), 1, daemon_defaults()),
{
    let ghost texts = arg_texts(argv@);
    let mut acc = DaemonArgs {
        interval_ms: 100,
        pin_path: String::from_str(DEFAULT_PIN_PATH),
        enable_proc: true,
        enable_fd: false,
        enable_cgroup: false,
        public: true,
    };
    let mut i: usize = 1;
    while i < argv.len()
        invariant
            1 <= i,
            texts == arg_texts(argv@),
            texts.len() == argv@.len(),
            daemon_parse(texts, 1, daemon_defaults()) == daemon_parse(texts, i as int, acc@),
        decreases argv@.len() - i,
    {
        let a = argv[i].as_str();
        assert(texts[i as int] == a@);
        if same_text(a, "--interval") || same_text(a, "-i") {
            if i + 1 >= argv.len() {
                return DaemonCommand::MissingValue;
            }
            assert(texts[i + 1] == argv@[i + 1]@);
            match parse_u64(argv[i + 1].as_str().as_bytes()) {
                Some(v) => {
                    acc.interval_ms = v;
                },
                None => {
                    return DaemonCommand::BadInterval;
                },
            }
            i = i + 2;
        } else if same_text(a, "--pin-path") || same_text(a, "-p") {
            if i + 1 >= argv.len() {
                return DaemonCommand::MissingValue;
            }
            assert(texts[i + 1] == argv@[i + 1]@);
            acc.pin_path = argv[i + 1].clone();
            i = i + 2;
        } else if same_text(a, "--no-proc") {
            acc.enable_proc = false;
            i = i + 1;
        } else if same_text(a, "--fd") {
            acc.enable_fd = true;
            i = i + 1;
        } else if same_text(a, "--cgroup") {
            acc.enable_cgroup = true;
            i = i + 1;
        } else if same_text(a, "--no-public") {
            acc.public = false;
            i = i + 1;
        } else if same_text(a, "--help") || same_text(a, "-h") {
            return DaemonCommand::Help;
        } else {
            return DaemonCommand::Unknown(String::from_str(a));
        }
    }
    DaemonCommand::Run(acc)
}


// ---------------------------------------------------------------------------
// procfast-exporter
// ---------------------------------------------------------------------------

/// The exporter's default HTTP port.
pub const DEFAULT_PORT: u16 = 9099;

/// The exporter's default collection interval in milliseconds.
pub const DEFAULT_EXPORT_INTERVAL_MS: u64 = 1000;

/// Settings of the exporter.
#[derive(Clone, Copy, Debug, PartialEq, Eq, Structural)]
pub struct ExporterArgs {
    pub port: u16,
    pub interval_ms: u64,
}

/// What the exporter's command line asks for.
#[derive(Clone, Copy, Debug, PartialEq, Eq, Structural)]
pub enum ExporterCommand {
    /// Serve with these settings.
    Run(ExporterArgs),
    /// Print the help and exit successfully.
    Help,
}

/// The exporter's port option: the number that follows, or the default
/// when it is missing or not a port number.
pub open spec fn port_option(argv: Seq<Seq<char>>, i: int) -> u16 {
    if i < argv.len() {
        match arg_number(argv[i], u16::MAX as nat) {
            Some(v) => v as u16,
            None => DEFAULT_PORT,
        }
    } else {
        DEFAULT_PORT
    }
}

/// The exporter's interval option: the number that follows, or the default
/// when it is missing or not a number.
pub open spec fn interval_option(argv: Seq<Seq<char>>, i: int) -> u64 {
    if i < argv.len() {
        match arg_number(argv[i], u64::MAX as nat) {
            Some(v) => v as u64,
            None => DEFAULT_EXPORT_INTERVAL_MS,
        }
    } else {
        DEFAULT_EXPORT_INTERVAL_MS
    }
}

/// The outcome of reading the exporter's arguments from index `i` on.
/// Arguments the exporter does not know are skipped.
pub open spec fn exporter_parse(argv: Seq<Seq<char>>, i: int, acc: ExporterArgs) -> ExporterCommand
    decreases argv.len() - i,
{
    if i >= argv.len() {
        ExporterCommand::Run(acc)
    } else {
        let a = argv[i];
        if a == "--port"@ || a == "-p"@ {
            let next = ExporterArgs { port: port_option(argv, i + 1), ..acc };
            if i + 1 < argv.len() {
                exporter_parse(argv, i + 2, next)
            } else {
                ExporterCommand::Run(next)
            }
        } else if a == "--interval"@ || a == "-i"@ {
            let next = ExporterArgs { interval_ms: interval_option(argv, i + 1), ..acc };
            if i + 1 < argv.len() {
                exporter_parse(argv, i + 2, next)
            } else {
                ExporterCommand::Run(next)
            }
        } else if a == "-h"@ || a == "--help"@ {
            ExporterCommand::Help
        } else {
            exporter_parse(argv, i + 1, acc)
        }
    }
}

/// The value of a numeric option at `argv[i]`, or `default` when there is
/// no such argument or it does not spell a number of at most `max`.
fn numeric_option(argv: &[String], i: usize, max: u64, default: u64) -> (r: u64)
    requires
        default <= max,
    ensures
        r == (if i < argv@.len() {
            match arg_number(argv@[i as int]@, max as nat) {
                Some(v) => v as u64,
                None => default,
            }
        } else {
            default
        }),
{
    if i < argv.len() {
        match parse_u64(argv[i].as_str().as_bytes()) {
            Some(v) => if v <= max {
                v
            } else {
                default
            },
            None => default,
        }
    } else {
        default
    }
}

/// Reads the exporter's command line (`argv[0]` is the program name).
pub fn parse_exporter_args(argv: &[String]) -> (r: ExporterCommand)
    ensures
        r == exporter_parse(
            arg_texts(argv@),
            1,
            ExporterArgs { port: DEFAULT_PORT, interval_ms: DEFAULT_EXPORT_INTERVAL_MS },
        ),
{
    let ghost texts = arg_texts(argv@);
    let ghost start = ExporterArgs { port: DEFAULT_PORT, interval_ms: DEFAULT_EXPORT_INTERVAL_MS };
    let mut acc = ExporterArgs { port: DEFAULT_PORT, interval_ms: DEFAULT_EXPORT_INTERVAL_MS };
    let mut i: usize = 1;
    while i < argv.len()
        invariant
            1 <= i,
            texts == arg_texts(argv@),
            texts.len() == argv@.len(),
            start == (ExporterArgs { port: DEFAULT_PORT, interval_ms: DEFAULT_EXPORT_INTERVAL_MS }),
            exporter_parse(texts, 1, start) == exporter_parse(texts, i as int, acc),
        decreases argv@.len() - i,
    {
        let a = argv[i].as_str();
        assert(texts[i as int] == a@);
        if same_text(a, "--port") || same_text(a, "-p") {
            if i + 1 < argv.len() {
                assert(texts[i + 1] == argv@[i + 1]@);
            }
            let v = numeric_option(argv, i + 1, u16::MAX as u64, DEFAULT_PORT as u64);
            acc.port = v as u16;
            if i + 1 >= argv.len() {
                return ExporterCommand::Run(acc);
            }
            i = i + 2;
        } else if same_text(a, "--interval") || same_text(a, "-i") {
            if i + 1 < argv.len() {
                assert(texts[i + 1] == argv@[i + 1]@);
            }
            acc.interval_ms = numeric_option(argv, i + 1, u64::MAX, DEFAULT_EXPORT_INTERVAL_MS);
            if i + 1 >= argv.len() {
                return ExporterCommand::Run(acc);
            }
            i = i + 2;
        } else if same_text(a, "-h") || same_text(a, "--help") {
            return ExporterCommand::Help;
        } else {
            i = i + 1;
        }
    }
    ExporterCommand::Run(acc)
}


// ---------------------------------------------------------------------------
// procfast-lsof
// ---------------------------------------------------------------------------

/// Filters of the lsof tool; every filter that is set must match.
pub struct LsofArgs {
    /// `-p PID`: only this process.
    pub pid: Option<u32>,
    /// `-c NAME`: only processes whose name contains this text.
    pub command: Option<String>,
    /// `-u USER`: only processes of this user (name or UID).
    pub user: Option<String>,
    /// A bare argument: only paths that contain this text.
    pub path: Option<String>,
    /// `+D DIR`: only paths that begin with this text.
    pub dir: Option<String>,
    /// `-J`, `--json`: print JSON.
    pub json: bool,
}

/// The filters of the lsof tool, with texts as character sequences.
pub struct LsofFilters {
    pub pid: Option<u32>,
    pub command: Option<Seq<char>>,
    pub user: Option<Seq<char>>,
    pub path: Option<Seq<char>>,
    pub dir: Option<Seq<char>>,
    pub json: bool,
}

/// The text of an optional argument.
pub open spec fn opt_text(o: Option<String>) -> Option<Seq<char>> {
    match o {
        Some(s) => Some(s@),
        None => None,
    }
}

impl View for LsofArgs {
    type V = LsofFilters;

    open spec fn view(&self) -> LsofFilters {
        LsofFilters {
            pid: self.pid,
            command: opt_text(self.command),
            user: opt_text(self.user),
            path: opt_text(self.path),
            dir: opt_text(self.dir),
            json: self.json,
        }
    }
}

/// What the lsof command line asks for.
pub enum LsofCommand {
    /// List with these filters.
    Run(LsofArgs),
    /// Print the help and exit successfully.
    Help,
    /// An option the tool does not know.
    Unknown(String),
}

/// What the lsof command line asks for, with texts as character sequences.
pub enum LsofOutcome {
    Run(LsofFilters),
    Help,
    Unknown(Seq<char>),
}

impl View for LsofCommand {
    type V = LsofOutcome;

    open spec fn view(&self) -> LsofOutcome {
        match self {
            LsofCommand::Run(a) => LsofOutcome::Run(a@),
            LsofCommand::Help => LsofOutcome::Help,
            LsofCommand::Unknown(s) => LsofOutcome::Unknown(s@),
        }
    }
}

/// No filter set, table output.
pub open spec fn lsof_defaults() -> LsofFilters {
    LsofFilters { pid: None, command: None, user: None, path: None, dir: None, json: false }
}

/// The argument at `i`, if there is one.
pub open spec fn arg_at(argv: Seq<Seq<char>>, i: int) -> Option<Seq<char>> {
    if 0 <= i < argv.len() {
        Some(argv[i])
    } else {
        None
    }
}

/// The PID that the argument at `i` spells, if there is one.
pub open spec fn pid_at(argv: Seq<Seq<char>>, i: int) -> Option<u32> {
    match arg_at(argv, i) {
        Some(a) => match arg_number(a, u32::MAX as nat) {
            Some(v) => Some(v as u32),
            None => None,
        },
        None => None,
    }
}

/// An argument that is neither an option (`-`) nor a `+` option is a path.
pub open spec fn is_bare(a: Seq<char>) -> bool {
    a.len() == 0 || (a[0] != '-' && a[0] != '+')
}

/// The outcome of reading the lsof arguments from index `i` on.
pub open spec fn lsof_parse(argv: Seq<Seq<char>>, i: int, acc: LsofFilters) -> LsofOutcome
    decreases argv.len() - i,
{
    if i >= argv.len() {
        LsofOutcome::Run(acc)
    } else {
        let a = argv[i];
        if a == "-p"@ || a == "-c"@ || a == "-u"@ || a == "+D"@ {
            let next = if a == "-p"@ {
                LsofFilters { pid: pid_at(argv, i + 1), ..acc }
            } else if a == "-c"@ {
                LsofFilters { command: arg_at(argv, i + 1), ..acc }
            } else if a == "-u"@ {
                LsofFilters { user: arg_at(argv, i + 1), ..acc }
            } else {
                LsofFilters { dir: arg_at(argv, i + 1), ..acc }
            };
            if i + 1 < argv.len() {
                lsof_parse(argv, i + 2, next)
            } else {
                LsofOutcome::Run(next)
            }
        } else if a == "-J"@ || a == "--json"@ {
            lsof_parse(argv, i + 1, LsofFilters { json: true, ..acc })
        } else if a == "-h"@ || a == "--help"@ {
            LsofOutcome::Help
        } else if is_bare(a) {
            lsof_parse(argv, i + 1, LsofFilters { path: Some(a), ..acc })
        } else {
            LsofOutcome::Unknown(a)
        }
    }
}

/// A copy of the argument at `i`, if there is one.
fn text_arg(argv: &[String], i: usize) -> (r: Option<String>)
    ensures
        opt_text(r) == arg_at(arg_texts(argv@), i as int),
{
    if i < argv.len() {
        Some(argv[i].clone())
    } else {
        None
    }
}

/// Reads the lsof command line (`argv[0]` is the program name).
pub fn parse_lsof_args(argv: &[String]) -> (r: LsofCommand)
    ensures
        r@ == lsof_parse(arg_texts(argv@), 1, lsof_defaults()),
{
    let ghost texts = arg_texts(argv@);
    let mut acc = LsofArgs { pid: None, command: None, user: None, path: None, dir: None, json: false };
    let mut i: usize = 1;
    while i < argv.len()
        invariant
            1 <= i,
            texts == arg_texts(argv@),
            texts.len() == argv@.len(),
            lsof_parse(texts, 1, lsof_defaults()) == lsof_parse(texts, i as int, acc@),
        decreases argv@.len() - i,
    {
        let a = argv[i].as_str();
        assert(texts[i as int] == a@);
        let takes_value = same_text(a, "-p") || same_text(a, "-c") || same_text(a, "-u")
            || same_text(a, "+D");
        if takes_value {
            if same_text(a, "-p") {
                acc.pid = if i + 1 < argv.len() {
                    assert(texts[i + 1] == argv@[i + 1]@);
                    parse_u32(argv[i + 1].as_str().as_bytes())
                } else {
                    None
                };
            } else if same_text(a, "-c") {
                acc.command = text_arg(argv, i + 1);
            } else if same_text(a, "-u") {
                acc.user = text_arg(argv, i + 1);
            } else {
                acc.dir = text_arg(argv, i + 1);
            }
            if i + 1 >= argv.len() {
                return LsofCommand::Run(acc);
            }
            i = i + 2;
        } else if same_text(a, "-J") || same_text(a, "--json") {
            acc.json = true;
            i = i + 1;
        } else if same_text(a, "-h") || same_text(a, "--help") {
            return LsofCommand::Help;
        } else {
            let n = a.unicode_len();
            let bare = n == 0 || (a.get_char(0) != '-' && a.get_char(0) != '+');
            if bare {
                acc.path = Some(String::from_str(a));
                i = i + 1;
            } else {
                return LsofCommand::Unknown(String::from_str(a));
            }
        }
    }
    LsofCommand::Run(acc)
}


// ---------------------------------------------------------------------------
// procfast-bench
// ---------------------------------------------------------------------------

/// The benchmark's default number of iterations.
pub const DEFAULT_ITERATIONS: usize = 10_000;

/// What the benchmark's command line asks for.
pub enum BenchCommand {
    /// Run `iterations` rounds of the named parts (all parts when none is named).
    Run { iterations: usize, parts: Vec<String> },
    /// Print the help and exit successfully.
    Help,
    /// `-n` is not followed by a number.
    BadIterations,
}

/// What the benchmark's command line asks for, with texts as character sequences.
pub enum BenchOutcome {
    Run { iterations: usize, parts: Seq<Seq<char>> },
    Help,
    BadIterations,
}

impl View for BenchCommand {
    type V = BenchOutcome;

    open spec fn view(&self) -> BenchOutcome {
        match self {
            BenchCommand::Run { iterations, parts } => BenchOutcome::Run {
                iterations: *iterations,
                parts: arg_texts(parts@),
            },
            BenchCommand::Help => BenchOutcome::Help,
            BenchCommand::BadIterations => BenchOutcome::BadIterations,
        }
    }
}

/// The outcome of reading the benchmark's arguments from index `i` on, with
/// the iteration count and the parts named so far.
pub open spec fn bench_parse(argv: Seq<Seq<char>>, i: int, iterations: usize, parts: Seq<Seq<char>>) -> BenchOutcome
    decreases argv.len() - i,
{
    if i >= argv.len() {
        BenchOutcome::Run { iterations, parts }
    } else {
        let a = argv[i];
        if a == "-n"@ || a == "--iterations"@ {
            if i + 1 < argv.len() {
                match arg_number(argv[i + 1], usize::MAX as nat) {
                    Some(v) => bench_parse(argv, i + 2, v as usize, parts),
                    None => BenchOutcome::BadIterations,
                }
            } else {
                BenchOutcome::BadIterations
            }
        } else if a == "-h"@ || a == "--help"@ {
            BenchOutcome::Help
        } else {
            bench_parse(argv, i + 1, iterations, parts.push(a))
        }
    }
}

/// Reads the benchmark's command line (`argv[0]` is the program name).
pub fn parse_bench_args(argv: &[String]) -> (r: BenchCommand)
    ensures
        r@ == bench_parse(arg_texts(argv@), 1, DEFAULT_ITERATIONS, seq![]),
{
    let ghost texts = arg_texts(argv@);
    let mut iterations: usize = DEFAULT_ITERATIONS;
    let mut parts: Vec<String> = Vec::new();
    let mut i: usize = 1;
    assert(arg_texts(parts@) =~= Seq::<Seq<char>>::empty());
    while i < argv.len()
        invariant
            1 <= i,
            texts == arg_texts(argv@),
            texts.len() == argv@.len(),
            bench_parse(texts, 1, DEFAULT_ITERATIONS, seq![]) == bench_parse(
                texts,
                i as int,
                iterations,
                arg_texts(parts@),
            ),
        decreases argv@.len() - i,
    {
        let a = argv[i].as_str();
        assert(texts[i as int] == a@);
        if same_text(a, "-n") || same_text(a, "--iterations") {
            if i + 1 >= argv.len() {
                return BenchCommand::BadIterations;
            }
            assert(texts[i + 1] == argv@[i + 1]@);
            match parse_usize(argv[i + 1].as_str().as_bytes()) {
                Some(v) => {
                    iterations = v;
                },
                None => {
                    return BenchCommand::BadIterations;
                },
            }
            i = i + 2;
        } else if same_text(a, "-h") || same_text(a, "--help") {
            return BenchCommand::Help;
        } else {
            let ghost before = arg_texts(parts@);
            parts.push(argv[i].clone());
            assert(arg_texts(parts@) =~= before.push(a@));
            i = i + 1;
        }
    }
    BenchCommand::Run { iterations, parts }
}


// ---------------------------------------------------------------------------
// procfast (the query tool)
// ---------------------------------------------------------------------------

/// What the query tool's command line asks for.
#[derive(PartialEq, Eq, Debug)]
pub enum CliCommand {
    /// No command was given: print the usage and fail.
    Usage,
    Cpu,
    Mem,
    Net,
    Disk,
    Irq,
    Thermal,
    /// Open descriptors, of one process when a PID follows.
    Fd(Option<u32>),
    Sock,
    Cgroup,
    Ps,
    /// The live view, with the delay text when one follows.
    Top(Option<String>),
    /// One process.
    Pid(u32),
    /// `pid` without a PID.
    PidMissing,
    /// The PID after `fd` or `pid` is not a number.
    BadPid,
    Status,
    /// JSON output of the named metric.
    Json(String),
    /// `json` without a metric.
    JsonMissing,
    Help,
    /// A command the tool does not know.
    Unknown(String),
}

/// What the query tool's command line asks for, with texts as character sequences.
pub enum CliOutcome {
    Usage,
    Cpu,
    Mem,
    Net,
    Disk,
    Irq,
    Thermal,
    Fd(Option<u32>),
    Sock,
    Cgroup,
    Ps,
    Top(Option<Seq<char>>),
    Pid(u32),
    PidMissing,
    BadPid,
    Status,
    Json(Seq<char>),
    JsonMissing,
    Help,
    Unknown(Seq<char>),
}

impl View for CliCommand {
    type V = CliOutcome;

    open spec fn view(&self) -> CliOutcome {
        match self {
            CliCommand::Usage => CliOutcome::Usage,
            CliCommand::Cpu => CliOutcome::Cpu,
            CliCommand::Mem => CliOutcome::Mem,
            CliCommand::Net => CliOutcome::Net,
            CliCommand::Disk => CliOutcome::Disk,
            CliCommand::Irq => CliOutcome::Irq,
            CliCommand::Thermal => CliOutcome::Thermal,
            CliCommand::Fd(p) => CliOutcome::Fd(*p),
            CliCommand::Sock => CliOutcome::Sock,
            CliCommand::Cgroup => CliOutcome::Cgroup,
            CliCommand::Ps => CliOutcome::Ps,
            CliCommand::Top(d) => CliOutcome::Top(opt_text(*d)),
            CliCommand::Pid(p) => CliOutcome::Pid(*p),
            CliCommand::PidMissing => CliOutcome::PidMissing,
            CliCommand::BadPid => CliOutcome::BadPid,
            CliCommand::Status => CliOutcome::Status,
            CliCommand::Json(m) => CliOutcome::Json(m@),
            CliCommand::JsonMissing => CliOutcome::JsonMissing,
            CliCommand::Help => CliOutcome::Help,
            CliCommand::Unknown(s) => CliOutcome::Unknown(s@),
        }
    }
}

/// The PID that the argument at `i` spells, or the PID error.
pub open spec fn pid_outcome(argv: Seq<Seq<char>>, i: int) -> Option<u32> {
    match arg_number(argv[i], u32::MAX as nat) {
        Some(v) => Some(v as u32),
        None => None,
    }
}

/// The outcome of the query tool's command line: the command is the first
/// argument after the program name; arguments after the ones a command
/// takes are ignored.
pub open spec fn cli_parse(argv: Seq<Seq<char>>) -> CliOutcome {
    if argv.len() < 2 {
        CliOutcome::Usage
    } else {
        let c = argv[1];
        if c == "cpu"@ {
            CliOutcome::Cpu
        } else if c == "mem"@ {
            CliOutcome::Mem
        } else if c == "net"@ {
            CliOutcome::Net
        } else if c == "disk"@ {
            CliOutcome::Disk
        } else if c == "irq"@ {
            CliOutcome::Irq
        } else if c == "thermal"@ {
            CliOutcome::Thermal
        } else if c == "fd"@ {
            if argv.len() >= 3 {
                match pid_outcome(argv, 2) {
                    Some(p) => CliOutcome::Fd(Some(p)),
                    None => CliOutcome::BadPid,
                }
            } else {
                CliOutcome::Fd(None)
            }
        } else if c == "sock"@ {
            CliOutcome::Sock
        } else if c == "cgroup"@ {
            CliOutcome::Cgroup
        } else if c == "ps"@ {
            CliOutcome::Ps
        } else if c == "top"@ {
            CliOutcome::Top(if argv.len() >= 3 { Some(argv[2]) } else { None })
        } else if c == "pid"@ {
            if argv.len() < 3 {
                CliOutcome::PidMissing
            } else {
                match pid_outcome(argv, 2) {
                    Some(p) => CliOutcome::Pid(p),
                    None => CliOutcome::BadPid,
                }
            }
        } else if c == "status"@ {
            CliOutcome::Status
        } else if c == "json"@ {
            if argv.len() < 3 {
                CliOutcome::JsonMissing
            } else {
                CliOutcome::Json(argv[2])
            }
        } else if c == "--help"@ || c == "-h"@ || c == "help"@ {
            CliOutcome::Help
        } else {
            CliOutcome::Unknown(c)
        }
    }
}

/// Reads the query tool's command line (`argv[0]` is the program name).
pub fn parse_cli_args(argv: &[String]) -> (r: CliCommand)
    ensures
        r@ == cli_parse(arg_texts(argv@)),
{
    let ghost texts = arg_texts(argv@);
    if argv.len() < 2 {
        return CliCommand::Usage;
    }
    let c = argv[1].as_str();
    assert(texts[1] == c@);
    if argv.len() >= 3 {
        assert(texts[2] == argv@[2]@);
    }
    if same_text(c, "cpu") {
        CliCommand::Cpu
    } else if same_text(c, "mem") {
        CliCommand::Mem
    } else if same_text(c, "net") {
        CliCommand::Net
    } else if same_text(c, "disk") {
        CliCommand::Disk
    } else if same_text(c, "irq") {
        CliCommand::Irq
    } else if same_text(c, "thermal") {
        CliCommand::Thermal
    } else if same_text(c, "fd") {
        if argv.len() >= 3 {
            match parse_u32(argv[2].as_str().as_bytes()) {
                Some(p) => CliCommand::Fd(Some(p)),
                None => CliCommand::BadPid,
            }
        } else {
            CliCommand::Fd(None)
        }
    } else if same_text(c, "sock") {
        CliCommand::Sock
    } else if same_text(c, "cgroup") {
        CliCommand::Cgroup
    } else if same_text(c, "ps") {
        CliCommand::Ps
    } else if same_text(c, "top") {
        CliCommand::Top(text_arg(argv, 2))
    } else if same_text(c, "pid") {
        if argv.len() < 3 {
            CliCommand::PidMissing
        } else {
            match parse_u32(argv[2].as_str().as_bytes()) {
                Some(p) => CliCommand::Pid(p),
                None => CliCommand::BadPid,
            }
        }
    } else if same_text(c, "status") {
        CliCommand::Status
    } else if same_text(c, "json") {
        if argv.len() < 3 {
            CliCommand::JsonMissing
        } else {
            CliCommand::Json(argv[2].clone())
        }
    } else if same_text(c, "--help") || same_text(c, "-h") || same_text(c, "help") {
        CliCommand::Help
    } else {
        CliCommand::Unknown(String::from_str(c))
    }
}

} // verus!
