//! Job and machine configuration as plain values, and the small rules that
//! act on them: template substitution, home-directory expansion and the
//! start-signal gate.

use vstd::prelude::*;
use vstd::string::*;
use crate::message::{has_prefix, starts_with};
use crate::text::{chars_of, replace_all};

verus! {

/// How much the log records.
#[derive(Clone, Copy, Debug, PartialEq, Eq, Structural)]
pub enum LogLevel {
    Off,
    Error,
    Warn,
    Info,
    Debug,
    Trace,
}

/// Settings of the host, shared by all jobs.
#[derive(Clone, Debug)]
pub struct GeneralConfig {
    pub logs: LogsConfig,
    pub gpio: GpioConfig,
}

/// Where the log goes and how much it records.
#[derive(Clone, Debug)]
pub struct LogsConfig {
    pub path: Option<String>,
    pub level: LogLevel,
}

/// The inputs read from the board's pins.
#[derive(Clone, Copy, Debug)]
pub struct GpioConfig {
    pub signal: PinConfig,
}

/// One input pin and the debounce applied to its edges.
#[derive(Clone, Copy, Debug)]
pub struct PinConfig {
    pub pin: u8,
    pub debounce_ms: u64,
}

/// Pin of the start signal when none is configured.
pub const DEFAULT_SIGNAL_PIN: u8 = 17;

/// Debounce of the start signal when none is configured.
pub const DEFAULT_DEBOUNCE_MS: u64 = 30;

impl GeneralConfig {
    /// The settings used when no configuration file exists, logging to
    /// `log_path` when one is known.
    pub fn with_log_path(log_path: Option<String>) -> (r: GeneralConfig)
        ensures
            r.logs.path == log_path,
            r.logs.level == LogLevel::Info,
            r.gpio.signal.pin == DEFAULT_SIGNAL_PIN,
            r.gpio.signal.debounce_ms == DEFAULT_DEBOUNCE_MS,
    {
        GeneralConfig {
            logs: LogsConfig { path: log_path, level: LogLevel::Info },
            gpio: GpioConfig {
                signal: PinConfig { pin: DEFAULT_SIGNAL_PIN, debounce_ms: DEFAULT_DEBOUNCE_MS },
            },
        }
    }
}

/// One job: the controller to drive and the tasks to run, in order.
#[derive(Clone, Debug)]
pub struct JobConfig {
    pub connection: ConnectionConfig,
    pub tasks: Vec<TaskConfig>,
}

/// How to reach the controller, and the size of its receive buffer.
#[derive(Clone, Debug)]
pub struct ConnectionConfig {
    pub kind: ConnectionKind,
    pub rx_capacity: usize,
}

/// Receive-buffer size of the controller when none is configured.
pub const DEFAULT_RX_CAPACITY: usize = 1024;

/// The transport to the controller.
#[derive(Clone, Debug)]
pub enum ConnectionKind {
    Tcp(TcpConfig),
    Serial(SerialConfig),
}

/// A TCP endpoint.
#[derive(Clone, Debug)]
pub struct TcpConfig {
    pub address: String,
    pub port: u16,
}

/// A serial device and its speed.
#[derive(Clone, Debug)]
pub struct SerialConfig {
    pub port: String,
    pub baud_rate: u32,
}

/// One task of a job, and whether it waits for the start signal.
#[derive(Clone, Debug)]
pub struct TaskConfig {
    pub kind: TaskKind,
    pub wait: bool,
}

/// What a task does.
#[derive(Clone, Debug)]
pub enum TaskKind {
    Stream(StreamConfig),
    Process(ProcessConfig),
}

/// Stream a file of blocks, optionally checking it first.
#[derive(Clone, Debug)]
pub struct StreamConfig {
    pub path: String,
    pub check: bool,
    pub output: Option<OutputConfig>,
}

/// Run a shell command.
#[derive(Clone, Debug)]
pub struct ProcessConfig {
    pub command: String,
}

/// Where a stream writes what it collects.
#[derive(Clone, Debug)]
pub struct OutputConfig {
    pub kind: OutputKind,
    pub path: String,
}

/// What a stream collects.
#[derive(Clone, Copy, Debug, PartialEq, Eq, Structural)]
pub enum OutputKind {
    ProbedPoints,
}

/// A task at its position in the job.
#[derive(Clone, Debug)]
pub struct Step {
    /// Position of the task in the job, from 0.
    pub index: usize,
    pub task: TaskConfig,
}

impl Step {
    /// The first step of a job, and every step that asks for it, waits for
    /// the start signal.
    pub fn should_wait(&self) -> (r: bool)
        ensures
            r == (self.index == 0 || self.task.wait),
    {
        self.index == 0 || self.task.wait
    }
}

/// The placeholder that templates replace with the job's timestamp.
pub open spec fn timestamp_placeholder() -> Seq<char> {
    "{%t}"@
}

fn matches_at(cs: &Vec<char>, pat: &Vec<char>, i: usize) -> (r: bool)
    requires
        i + pat@.len() <= cs@.len(),
    ensures
        r == (cs@.subrange(i as int, i + pat@.len()) == pat@),
{
    let mut j: usize = 0;
    let _len = cs.len();
    while j < pat.len()
        invariant
            i + pat@.len() <= cs@.len(),
            cs@.len() <= usize::MAX,
            j <= pat@.len(),
            forall|k: int| 0 <= k < j ==> cs@[i + k] == pat@[k],
        decreases pat@.len() - j,
    {
        if cs[i + j] != pat[j] {
            assert(cs@.subrange(i as int, i + pat@.len())[j as int] != pat@[j as int]);
            return false;
        }
        j = j + 1;
    }
    assert(cs@.subrange(i as int, i + pat@.len()) =~= pat@);
    true
}

/// `text` with every `{%t}` replaced by `timestamp`.
pub fn apply_template(text: &str, timestamp: &str) -> (r: String)
    ensures
        r@ == replace_all(text@, timestamp_placeholder(), timestamp@),
{
    let cs = chars_of(text);
    let pat = chars_of("{%t}");
    proof {
        reveal_strlit("{%t}");
    }
    let n = cs.len();
    let m = pat.len();
    let ghost p = timestamp_placeholder();
    let ghost w = timestamp@;
    let mut r = String::new();
    let mut i: usize = 0;
    assert(text@.skip(0) =~= text@);
    assert(r@ + replace_all(text@.skip(0), p, w) =~= replace_all(text@, p, w));
    while i < n
        invariant
            cs@ == text@,
            pat@ == p,
            w == timestamp@,
            p.len() == 4,
            m == pat@.len(),
            n == cs@.len(),
            i <= n,
            r@ + replace_all(text@.skip(i as int), p, w) == replace_all(text@, p, w),
        decreases n - i,
    {
        let ghost rest = text@.skip(i as int);
        let ghost before = r@;
        if n - i < m {
            assert(replace_all(rest, p, w) == rest);
            r.append(text.substring_char(i, n));
            assert(text@.skip(n as int) =~= Seq::<char>::empty());
            assert(replace_all(text@.skip(n as int), p, w) == text@.skip(n as int));
            assert(r@ + replace_all(text@.skip(n as int), p, w) =~= before + rest);
            i = n;
        } else if matches_at(&cs, &pat, i) {
            assert(rest.take(4) =~= cs@.subrange(i as int, i + 4));
            assert(rest.skip(4) =~= text@.skip(i + 4));
            assert(rest.take(p.len() as int) == p);
            assert(rest.skip(p.len() as int) == text@.skip(i + 4));
            assert(replace_all(rest, p, w) == w + replace_all(text@.skip(i + 4), p, w));
            r.append(timestamp);
            let ghost tail = replace_all(text@.skip(i + 4), p, w);
            assert((before + w) + tail =~= before + (w + tail));
            assert(r@ + replace_all(text@.skip(i + 4), p, w) =~= before + replace_all(rest, p, w));
            i = i + m;
        } else {
            assert(rest.take(4) =~= cs@.subrange(i as int, i + 4));
            assert(rest.drop_first() =~= text@.skip(i + 1));
            let c = text.substring_char(i, i + 1);
            assert(c@ =~= seq![rest[0]]);
            r.append(c);
            assert(r@ + replace_all(text@.skip(i + 1), p, w) =~= before + replace_all(rest, p, w));
            i = i + 1;
        }
    }
    r
}

/// A path `~/rest` with the home directory known reads as `home/rest`;
/// any other path is left as it is.
pub open spec fn expanded_path(path: Seq<char>, home: Option<Seq<char>>) -> Seq<char> {
    match home {
        Some(h) => if has_prefix(path, "~/"@) {
            h + path.skip(1)
        } else {
            path
        },
        None => path,
    }
}

/// Expands a leading `~/` to the home directory, when it is known.
pub fn expand_path(path: &str, home: Option<&str>) -> (r: String)
    ensures
        r@ == expanded_path(path@, match home {
            Some(h) => Some(h@),
            None => None,
        }),
{
    match home {
        Some(h) => if starts_with(path, "~/") {
            proof {
                reveal_strlit("~/");
            }
            let mut r = h.to_owned();
            r.append(path.substring_char(1, path.unicode_len()));
            r
        } else {
            path.to_owned()
        },
        None => path.to_owned(),
    }
}

} // verus!
