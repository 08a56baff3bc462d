//! The configuration of a node and its defaults.
//!
//! Every option has a path in the configuration file, such as
//! `server.cluster_id`, and can be overridden by an environment variable whose
//! name is `PERCAS_CONFIG_` followed by the path in upper case with each dot
//! turned into an underscore.

use vstd::prelude::*;
use vstd::string::{StrSliceExecFns, StringExecFns};
use crate::engine::DiskThrottle;

verus! {

/// The configuration of a node.
#[derive(Debug)]
pub struct Config {
    pub server: ServerConfig,
    pub storage: StorageConfig,
    pub telemetry: TelemetryConfig,
}

/// Where the node lives and listens, and whom it asks first.
#[derive(Debug)]
pub struct ServerConfig {
    /// The directory of the node's own state.
    pub dir: String,
    /// The socket address of the data plane.
    pub listen_data_addr: String,
    /// The address of the data plane that peers and clients are told.
    pub advertise_data_addr: Option<String>,
    /// The socket address of the control plane.
    pub listen_ctrl_addr: String,
    /// The address of the control plane that peers are told.
    pub advertise_ctrl_addr: Option<String>,
    /// The control-plane URLs that gossip starts from.
    pub initial_peers: Vec<String>,
    /// The name of the cluster.
    pub cluster_id: String,
}

/// Where and how much the cache stores.
#[derive(Debug)]
pub struct StorageConfig {
    pub data_dir: String,
    pub disk_capacity: u64,
    pub disk_throttle: Option<DiskThrottle>,
    pub memory_capacity: Option<u64>,
}

/// Logs, traces and metrics. A part that is absent is switched off.
#[derive(Debug)]
pub struct TelemetryConfig {
    pub logs: LogsConfig,
    pub traces: Option<TracesConfig>,
    pub metrics: Option<MetricsConfig>,
}

/// Where logs go. An appender that is absent is switched off.
#[derive(Debug)]
pub struct LogsConfig {
    pub file: Option<FileAppenderConfig>,
    pub stderr: Option<StderrAppenderConfig>,
    pub opentelemetry: Option<OpentelemetryAppenderConfig>,
}

impl LogsConfig {
    /// No appender at all.
    pub fn disabled() -> (r: LogsConfig)
        ensures
            r.file is None,
            r.stderr is None,
            r.opentelemetry is None,
    {
        LogsConfig { file: None, stderr: None, opentelemetry: None }
    }
}

/// Logs to files in a directory, rolled over and pruned.
#[derive(Debug)]
pub struct FileAppenderConfig {
    pub filter: String,
    pub dir: String,
    /// The most files that are kept; positive where present.
    pub max_files: Option<usize>,
}

/// Logs to the standard error stream.
#[derive(Debug)]
pub struct StderrAppenderConfig {
    pub filter: String,
}

/// Logs to an OpenTelemetry collector.
#[derive(Debug)]
pub struct OpentelemetryAppenderConfig {
    pub filter: String,
    pub otlp_endpoint: String,
}

/// Which spans are captured and where they go.
#[derive(Debug)]
pub struct TracesConfig {
    pub capture_log_filter: String,
    pub opentelemetry: Option<OpentelemetryTracesConfig>,
}

/// Traces to an OpenTelemetry collector.
#[derive(Debug)]
pub struct OpentelemetryTracesConfig {
    pub otlp_endpoint: String,
}

/// Where metrics go.
#[derive(Debug)]
pub struct MetricsConfig {
    pub opentelemetry: Option<OpentelemetryMetricsConfig>,
}

/// Metrics to an OpenTelemetry collector.
#[derive(Debug)]
pub struct OpentelemetryMetricsConfig {
    pub otlp_endpoint: String,
    /// Seconds between two pushes.
    pub push_interval: i64,
}

/// The default disk capacity: 512 MiB.
pub const DEFAULT_DISK_CAPACITY: u64 = 536_870_912;

/// The most log files that are kept by default.
pub const DEFAULT_MAX_LOG_FILES: usize = 64;

/// The socket address of the data plane where none is configured.
pub fn default_listen_data_addr() -> (r: String)
    ensures
        r@ == "0.0.0.0:7654"@,
{
    "0.0.0.0:7654".to_string()
}

/// The socket address of the control plane where none is configured.
pub fn default_listen_ctrl_addr() -> (r: String)
    ensures
        r@ == "0.0.0.0:7655"@,
{
    "0.0.0.0:7655".to_string()
}

/// The directory of the node's own state where none is configured.
pub fn default_dir() -> (r: String)
    ensures
        r@ == "/var/lib/percas"@,
{
    "/var/lib/percas".to_string()
}

/// The directory of the cache's files where none is configured.
pub fn default_data_dir() -> (r: String)
    ensures
        r@ == "/var/lib/percas/data"@,
{
    "/var/lib/percas/data".to_string()
}

/// The name of the cluster where none is configured.
pub fn default_cluster_id() -> (r: String)
    ensures
        r@ == "percas-cluster"@,
{
    "percas-cluster".to_string()
}

/// Seconds between two pushes of metrics, by default.
pub fn default_metrics_push_interval() -> (r: i64)
    ensures
        r == 30,
{
    30
}

/// The path `name` below the directory `base`: the two joined by one `/`,
/// which an empty `base` or one that ends in `/` does not need.
pub open spec fn joined(base: Seq<char>, name: Seq<char>) -> Seq<char> {
    if base.len() == 0 || base.last() == '/' {
        base + name
    } else {
        base + seq!['/'] + name
    }
}

/// The path `name` below the directory `base`.
pub fn join_path(base: &str, name: &str) -> (r: String)
    ensures
        r@ == joined(base@, name@),
{
    let n: usize = base.unicode_len();
    let mut out: String = base.to_string();
    if n > 0 && base.get_char(n - 1) != '/' {
        proof {
            reveal_strlit("/");
        }
        assert("/"@ =~= seq!['/']);
        out.append("/");
    }
    out.append(name);
    out
}

/// The file in which a node keeps its identity, below `base_dir`.
pub fn node_file_path(base_dir: &str) -> (r: String)
    ensures
        r@ == joined(base_dir@, "node.json"@),
{
    join_path(base_dir, "node.json")
}

/// The directory of the cache's files, below `base`.
pub fn data_path(base: &str) -> (r: String)
    ensures
        r@ == joined(base@, "data"@),
{
    join_path(base, "data")
}

impl Default for Config {
    /// The configuration of a node on which nothing was configured: every
    /// pipeline of telemetry on, at level `INFO`, towards a collector on the
    /// same machine.
    fn default() -> (c: Config)
        ensures
            c.server.dir@ == "/var/lib/percas"@,
            c.server.listen_data_addr@ == "0.0.0.0:7654"@,
            c.server.advertise_data_addr is None,
            c.server.listen_ctrl_addr@ == "0.0.0.0:7655"@,
            c.server.advertise_ctrl_addr is None,
            c.server.initial_peers@.len() == 0,
            c.server.cluster_id@ == "percas-cluster"@,
            c.storage.data_dir@ == "/var/lib/percas/data"@,
            c.storage.disk_capacity == DEFAULT_DISK_CAPACITY,
            c.storage.disk_throttle is None,
            c.storage.memory_capacity is None,
            c.telemetry.logs.file matches Some(f) && f.filter@ == "INFO"@ && f.dir@ == "logs"@
                && f.max_files == Some(DEFAULT_MAX_LOG_FILES),
            c.telemetry.logs.stderr matches Some(s) && s.filter@ == "INFO"@,
            c.telemetry.logs.opentelemetry matches Some(o) && o.filter@ == "INFO"@
                && o.otlp_endpoint@ == "http://127.0.0.1:4317"@,
            c.telemetry.traces matches Some(t) && t.capture_log_filter@ == "INFO"@ && (
            t.opentelemetry matches Some(o) && o.otlp_endpoint@ == "http://127.0.0.1:4317"@),
            c.telemetry.metrics matches Some(m) && (m.opentelemetry matches Some(o)
                && o.otlp_endpoint@ == "http://127.0.0.1:4317"@ && o.push_interval == 30),
    {
        Config {
            server: ServerConfig {
                dir: default_dir(),
                listen_data_addr: default_listen_data_addr(),
                advertise_data_addr: None,
                listen_ctrl_addr: default_listen_ctrl_addr(),
                advertise_ctrl_addr: None,
                initial_peers: Vec::new(),
                cluster_id: default_cluster_id(),
            },
            storage: StorageConfig {
                data_dir: default_data_dir(),
                disk_capacity: DEFAULT_DISK_CAPACITY,
                disk_throttle: None,
                memory_capacity: None,
            },
            telemetry: TelemetryConfig {
                logs: LogsConfig {
                    file: Some(
                        FileAppenderConfig {
                            filter: "INFO".to_string(),
                            dir: "logs".to_string(),
                            max_files: Some(DEFAULT_MAX_LOG_FILES),
                        },
                    ),
                    stderr: Some(StderrAppenderConfig { filter: "INFO".to_string() }),
                    opentelemetry: Some(
                        OpentelemetryAppenderConfig {
                            filter: "INFO".to_string(),
                            otlp_endpoint: "http://127.0.0.1:4317".to_string(),
                        },
                    ),
                },
                traces: Some(
                    TracesConfig {
                        capture_log_filter: "INFO".to_string(),
                        opentelemetry: Some(
                            OpentelemetryTracesConfig {
                                otlp_endpoint: "http://127.0.0.1:4317".to_string(),
                            },
                        ),
                    },
                ),
                metrics: Some(
                    MetricsConfig {
                        opentelemetry: Some(
                            OpentelemetryMetricsConfig {
                                otlp_endpoint: "http://127.0.0.1:4317".to_string(),
                                push_interval: default_metrics_push_interval(),
                            },
                        ),
                    },
                ),
            },
        }
    }
}

/// One option that the environment can override.
#[derive(Debug)]
pub struct OptionEntry {
    /// The name of the environment variable.
    pub env_name: String,
    /// The path in the configuration file.
    pub ent_path: &'static str,
    /// The type of the value.
    pub ent_type: &'static str,
}

/// A character of a path as it stands in the name of the environment
/// variable: a lower-case letter as its capital, a dot as an underscore,
/// anything else as itself.
pub open spec fn upper_snake(c: char) -> char {
    match c {
        'a' => 'A',
        'b' => 'B',
        'c' => 'C',
        'd' => 'D',
        'e' => 'E',
        'f' => 'F',
        'g' => 'G',
        'h' => 'H',
        'i' => 'I',
        'j' => 'J',
        'k' => 'K',
        'l' => 'L',
        'm' => 'M',
        'n' => 'N',
        'o' => 'O',
        'p' => 'P',
        'q' => 'Q',
        'r' => 'R',
        's' => 'S',
        't' => 'T',
        'u' => 'U',
        'v' => 'V',
        'w' => 'W',
        'x' => 'X',
        'y' => 'Y',
        'z' => 'Z',
        '.' => '_',
        _ => c,
    }
}

/// The name of the environment variable that overrides the option at `path`.
pub open spec fn env_name_of(path: Seq<char>) -> Seq<char> {
    "PERCAS_CONFIG_"@ + path.map_values(|c: char| upper_snake(c))
}

/// The character `c` as it stands in the name of the environment variable;
/// `same` is the character as a string.
fn upper_snake_str<'a>(c: char, same: &'a str) -> (r: &'a str)
    requires
        same@ == seq![c],
    ensures
        r@ == seq![upper_snake(c)],
{
    match c {
        'a' => {
            proof {
                reveal_strlit("A");
            }
            assert("A"@ =~= seq!['A']);
            "A"
        },
        'b' => {
            proof {
                reveal_strlit("B");
            }
            assert("B"@ =~= seq!['B']);
            "B"
        },
        'c' => {
            proof {
                reveal_strlit("C");
            }
            assert("C"@ =~= seq!['C']);
            "C"
        },
        'd' => {
            proof {
                reveal_strlit("D");
            }
            assert("D"@ =~= seq!['D']);
            "D"
        },
        'e' => {
            proof {
                reveal_strlit("E");
            }
            assert("E"@ =~= seq!['E']);
            "E"
        },
        'f' => {
            proof {
                reveal_strlit("F");
            }
            assert("F"@ =~= seq!['F']);
            "F"
        },
        'g' => {
            proof {
                reveal_strlit("G");
            }
            assert("G"@ =~= seq!['G']);
            "G"
        },
        'h' => {
            proof {
                reveal_strlit("H");
            }
            assert("H"@ =~= seq!['H']);
            "H"
        },
        'i' => {
            proof {
                reveal_strlit("I");
            }
            assert("I"@ =~= seq!['I']);
            "I"
        },
        'j' => {
            proof {
                reveal_strlit("J");
            }
            assert("J"@ =~= seq!['J']);
            "J"
        },
        'k' => {
            proof {
                reveal_strlit("K");
            }
            assert("K"@ =~= seq!['K']);
            "K"
        },
        'l' => {
            proof {
                reveal_strlit("L");
            }
            assert("L"@ =~= seq!['L']);
            "L"
        },
        'm' => {
            proof {
                reveal_strlit("M");
            }
            assert("M"@ =~= seq!['M']);
            "M"
        },
        'n' => {
            proof {
                reveal_strlit("N");
            }
            assert("N"@ =~= seq!['N']);
            "N"
        },
        'o' => {
            proof {
                reveal_strlit("O");
            }
            assert("O"@ =~= seq!['O']);
            "O"
        },
        'p' => {
            proof {
                reveal_strlit("P");
            }
            assert("P"@ =~= seq!['P']);
            "P"
        },
        'q' => {
            proof {
                reveal_strlit("Q");
            }
            assert("Q"@ =~= seq!['Q']);
            "Q"
        },
        'r' => {
            proof {
                reveal_strlit("R");
            }
            assert("R"@ =~= seq!['R']);
            "R"
        },
        's' => {
            proof {
                reveal_strlit("S");
            }
            assert("S"@ =~= seq!['S']);
            "S"
        },
        't' => {
            proof {
                reveal_strlit("T");
            }
            assert("T"@ =~= seq!['T']);
            "T"
        },
        'u' => {
            proof {
                reveal_strlit("U");
            }
            assert("U"@ =~= seq!['U']);
            "U"
        },
        'v' => {
            proof {
                reveal_strlit("V");
            }
            assert("V"@ =~= seq!['V']);
            "V"
        },
        'w' => {
            proof {
                reveal_strlit("W");
            }
            assert("W"@ =~= seq!['W']);
            "W"
        },
        'x' => {
            proof {
                reveal_strlit("X");
            }
            assert("X"@ =~= seq!['X']);
            "X"
        },
        'y' => {
            proof {
                reveal_strlit("Y");
            }
            assert("Y"@ =~= seq!['Y']);
            "Y"
        },
        'z' => {
            proof {
                reveal_strlit("Z");
            }
            assert("Z"@ =~= seq!['Z']);
            "Z"
        },
        '.' => {
            proof {
                reveal_strlit("_");
            }
            assert("_"@ =~= seq!['_']);
            "_"
        },
        _ => same,
    }
}

/// The name of the environment variable that overrides the option at `path`.
pub fn env_name(path: &str) -> (r: String)
    ensures
        r@ == env_name_of(path@),
{
    let n: usize = path.unicode_len();
    let mut out: String = "PERCAS_CONFIG_".to_string();
    let mut i: usize = 0;
    assert(path@.subrange(0, 0).map_values(|c: char| upper_snake(c)) =~= Seq::<char>::empty());
    assert(out@ =~= "PERCAS_CONFIG_"@ + Seq::<char>::empty());
    while i < n
        invariant
            n == path@.len(),
            i <= n,
            out@ == "PERCAS_CONFIG_"@ + path@.subrange(0, i as int).map_values(
                |c: char| upper_snake(c),
            ),
        decreases n - i,
    {
        let c: char = path.get_char(i);
        let same: &str = path.substring_char(i, i + 1);
        assert(same@ =~= seq![c]);
        let ghost before = path@.subrange(0, i as int).map_values(|c: char| upper_snake(c));
        out.append(upper_snake_str(c, same));
        proof {
            let after = path@.subrange(0, i + 1).map_values(|c: char| upper_snake(c));
            assert(after =~= before + seq![upper_snake(c)]);
            assert(out@ =~= "PERCAS_CONFIG_"@ + after);
        }
        i = i + 1;
    }
    assert(path@.subrange(0, n as int) =~= path@);
    out
}

/// The option at `path` with values of type `ty`.
pub fn option_entry(path: &'static str, ty: &'static str) -> (e: OptionEntry)
    ensures
        e.env_name@ == env_name_of(path@),
        e.ent_path@ == path@,
        e.ent_type@ == ty@,
{
    OptionEntry { env_name: env_name(path), ent_path: path, ent_type: ty }
}

/// The paths of the options that the environment can override, each with the
/// type of its value, in increasing order of path.
pub open spec fn option_table() -> Seq<(Seq<char>, Seq<char>)> {
    seq![
        ("server.advertise_ctrl_addr"@, "string"@),
        ("server.advertise_data_addr"@, "string"@),
        ("server.cluster_id"@, "string"@),
        ("server.dir"@, "string"@),
        ("server.initial_peers"@, "array"@),
        ("server.listen_ctrl_addr"@, "string"@),
        ("server.listen_data_addr"@, "string"@),
        ("storage.data_dir"@, "string"@),
        ("storage.disk_capacity"@, "integer"@),
        ("storage.disk_throttle.iops_counter.mode"@, "string"@),
        ("storage.disk_throttle.iops_counter.size"@, "integer"@),
        ("storage.disk_throttle.read_iops"@, "integer"@),
        ("storage.disk_throttle.read_throughput"@, "integer"@),
        ("storage.disk_throttle.write_iops"@, "integer"@),
        ("storage.disk_throttle.write_throughput"@, "integer"@),
        ("storage.memory_capacity"@, "integer"@),
        ("telemetry.logs.file.dir"@, "string"@),
        ("telemetry.logs.file.filter"@, "string"@),
        ("telemetry.logs.file.max_files"@, "integer"@),
        ("telemetry.logs.opentelemetry.filter"@, "string"@),
        ("telemetry.logs.opentelemetry.otlp_endpoint"@, "string"@),
        ("telemetry.logs.stderr.filter"@, "string"@),
        ("telemetry.metrics.opentelemetry.otlp_endpoint"@, "string"@),
        ("telemetry.metrics.opentelemetry.push_interval"@, "string"@),
        ("telemetry.traces.capture_log_filter"@, "string"@),
        ("telemetry.traces.opentelemetry.otlp_endpoint"@, "string"@),
    ]
}

/// The options that the environment can override: one entry for each row of
/// the option table, in its order, under the name that belongs to its path.
pub fn known_option_entries() -> (r: Vec<OptionEntry>)
    ensures
        r@.len() == option_table().len(),
        forall|i: int|
            0 <= i < r@.len() ==> {
                &&& (#[trigger] r@[i]).ent_path@ == option_table()[i].0
                &&& r@[i].ent_type@ == option_table()[i].1
                &&& r@[i].env_name@ == env_name_of(option_table()[i].0)
            },
{
    let mut out: Vec<OptionEntry> = Vec::with_capacity(26);
    out.push(option_entry("server.advertise_ctrl_addr", "string"));
    out.push(option_entry("server.advertise_data_addr", "string"));
    out.push(option_entry("server.cluster_id", "string"));
    out.push(option_entry("server.dir", "string"));
    out.push(option_entry("server.initial_peers", "array"));
    out.push(option_entry("server.listen_ctrl_addr", "string"));
    out.push(option_entry("server.listen_data_addr", "string"));
    out.push(option_entry("storage.data_dir", "string"));
    out.push(option_entry("storage.disk_capacity", "integer"));
    out.push(option_entry("storage.disk_throttle.iops_counter.mode", "string"));
    out.push(option_entry("storage.disk_throttle.iops_counter.size", "integer"));
    out.push(option_entry("storage.disk_throttle.read_iops", "integer"));
    out.push(option_entry("storage.disk_throttle.read_throughput", "integer"));
    out.push(option_entry("storage.disk_throttle.write_iops", "integer"));
    out.push(option_entry("storage.disk_throttle.write_throughput", "integer"));
    out.push(option_entry("storage.memory_capacity", "integer"));
    out.push(option_entry("telemetry.logs.file.dir", "string"));
    out.push(option_entry("telemetry.logs.file.filter", "string"));
    out.push(option_entry("telemetry.logs.file.max_files", "integer"));
    out.push(option_entry("telemetry.logs.opentelemetry.filter", "string"));
    out.push(option_entry("telemetry.logs.opentelemetry.otlp_endpoint", "string"));
    out.push(option_entry("telemetry.logs.stderr.filter", "string"));
    out.push(option_entry("telemetry.metrics.opentelemetry.otlp_endpoint", "string"));
    out.push(option_entry("telemetry.metrics.opentelemetry.push_interval", "string"));
    out.push(option_entry("telemetry.traces.capture_log_filter", "string"));
    out.push(option_entry("telemetry.traces.opentelemetry.otlp_endpoint", "string"));
    out
}

/// Whether two strings hold the same characters.
pub fn str_eq(a: &str, b: &str) -> (r: bool)
    ensures
        r == (a@ == b@),
{
    let n: usize = a.unicode_len();
    if n != b.unicode_len() {
        return false;
    }
    let mut i: usize = 0;
    while i < n
        invariant
            n == a@.len(),
            n == b@.len(),
            i <= n,
            forall|j: int| 0 <= j < i ==> a@[j] == b@[j],
        decreases n - i,
    {
        if a.get_char(i) != b.get_char(i) {
            return false;
        }
        i = i + 1;
    }
    assert(a@ =~= b@);
    true
}

/// The value of a decimal digit, if `c` is one.
pub open spec fn digit_value(c: char) -> Option<int> {
    if '0' <= c <= '9' {
        Some(c as int - '0' as int)
    } else {
        None
    }
}

/// Every character is a decimal digit.
pub open spec fn all_digits(s: Seq<char>) -> bool {
    forall|i: int| 0 <= i < s.len() ==> digit_value(#[trigger] s[i]) is Some
}

/// The number that the decimal digits `s` spell.
pub open spec fn decimal_value(s: Seq<char>) -> int
    decreases s.len(),
{
    if s.len() == 0 {
        0
    } else {
        decimal_value(s.drop_last()) * 10 + digit_value(s.last())->0
    }
}

/// The integer that `text` spells: an optional sign and at least one decimal
/// digit, nothing else, with a value that fits 64 bits.
pub open spec fn parsed_integer(text: Seq<char>) -> Option<i64> {
    let negative = text.len() > 0 && text[0] == '-';
    let digits = if text.len() > 0 && (text[0] == '-' || text[0] == '+') {
        text.skip(1)
    } else {
        text
    };
    let value = if negative {
        -decimal_value(digits)
    } else {
        decimal_value(digits)
    };
    if digits.len() > 0 && all_digits(digits) && i64::MIN <= value <= i64::MAX {
        Some(value as i64)
    } else {
        None
    }
}

/// The number spelled grows with every further digit.
proof fn lemma_decimal_value_grows(s: Seq<char>, k: int)
    requires
        all_digits(s),
        0 <= k <= s.len(),
    ensures
        0 <= decimal_value(s.subrange(0, k)) <= decimal_value(s),
    decreases s.len() - k,
{
    if k == s.len() {
        assert(s.subrange(0, k) =~= s);
        lemma_decimal_value_nonnegative(s);
    } else {
        lemma_decimal_value_grows(s, k + 1);
        let t = s.subrange(0, k + 1);
        assert(t.drop_last() =~= s.subrange(0, k));
        assert(t.last() == s[k]);
        lemma_decimal_value_nonnegative(s.subrange(0, k));
    }
}

/// Decimal digits spell no negative number.
proof fn lemma_decimal_value_nonnegative(s: Seq<char>)
    requires
        all_digits(s),
    ensures
        decimal_value(s) >= 0,
    decreases s.len(),
{
    if s.len() > 0 {
        assert(all_digits(s.drop_last())) by {
            assert forall|i: int| 0 <= i < s.drop_last().len() implies digit_value(
                #[trigger] s.drop_last()[i],
            ) is Some by {
                assert(s.drop_last()[i] == s[i]);
            }
        }
        lemma_decimal_value_nonnegative(s.drop_last());
    }
}

/// Reads an integer as `parsed_integer` defines it.
pub fn parse_integer(text: &str) -> (r: Option<i64>)
    ensures
        r == parsed_integer(text@),
{
    let n: usize = text.unicode_len();
    if n == 0 {
        return None;
    }
    let first: char = text.get_char(0);
    let negative: bool = first == '-';
    let start: usize = if first == '-' || first == '+' {
        1
    } else {
        0
    };
    if start == n {
        return None;
    }
    let ghost digits = text@.skip(start as int);
    assert(text@.skip(0) =~= text@);
    // one past the largest magnitude that fits
    let limit: i128 = 9_223_372_036_854_775_808;
    let mut acc: i128 = 0;
    let mut i: usize = start;
    assert(digits.subrange(0, 0) =~= Seq::<char>::empty());
    while i < n
        invariant
            n == text@.len(),
            start <= i <= n,
            digits == text@.skip(start as int),
            digits == if text@.len() > 0 && (text@[0] == '-' || text@[0] == '+') {
                text@.skip(1)
            } else {
                text@
            },
            negative == (text@.len() > 0 && text@[0] == '-'),
            limit == 9_223_372_036_854_775_808,
            all_digits(digits.subrange(0, i - start)),
            acc == decimal_value(digits.subrange(0, i - start)),
            0 <= acc <= limit,
        decreases n - i,
    {
        let c: char = text.get_char(i);
        assert(digits[i - start] == c);
        if c < '0' || c > '9' {
            assert(digit_value(digits[i - start]) is None);
            return None;
        }
        let d: i128 = (c as u32 - '0' as u32) as i128;
        let ghost prefix = digits.subrange(0, i - start);
        let ghost next = digits.subrange(0, i - start + 1);
        proof {
            assert(next.drop_last() =~= prefix);
            assert(next.last() == c);
            assert forall|j: int| 0 <= j < next.len() implies digit_value(#[trigger] next[j]) is Some by {
                if j < prefix.len() {
                    assert(next[j] == prefix[j]);
                }
            }
        }
        assert(decimal_value(next) == decimal_value(next.drop_last()) * 10 + digit_value(
            next.last(),
        )->0);
        let grown: i128 = acc * 10 + d;
        if grown > limit {
            proof {
                // Whatever follows, the number only grows: it cannot fit.
                if all_digits(digits) {
                    lemma_decimal_value_grows(digits, i - start + 1);
                }
            }
            return None;
        }
        acc = grown;
        i = i + 1;
    }
    assert(digits.subrange(0, n - start) =~= digits);
    if negative {
        Some((0 - acc) as i64)
    } else if acc < limit {
        Some(acc as i64)
    } else {
        None
    }
}

/// A value that the environment gives an option.
#[derive(Debug)]
pub enum OverrideValue {
    Text(String),
    Integer(i64),
    Boolean(bool),
}

/// Why a variable of the environment cannot override an option.
#[derive(Debug, Clone, Copy, PartialEq, Eq, Structural)]
pub enum OverrideError {
    /// No option goes by the name of the variable.
    UnknownVariable,
    /// The option takes an integer and the value is none.
    BadInteger,
    /// The option takes a boolean and the value is neither `true` nor
    /// `false`.
    BadBoolean,
    /// Options of this type cannot be overridden.
    UnsupportedType,
}

/// The index of the first option that goes by the name `name`.
pub fn find_option(entries: &Vec<OptionEntry>, name: &str) -> (r: Option<usize>)
    ensures
        match r {
            Some(i) => {
                &&& i < entries@.len()
                &&& entries@[i as int].env_name@ == name@
                &&& forall|j: int| 0 <= j < i ==> (#[trigger] entries@[j]).env_name@ != name@
            },
            None => forall|j: int|
                0 <= j < entries@.len() ==> (#[trigger] entries@[j]).env_name@ != name@,
        },
{
    let mut i: usize = 0;
    while i < entries.len()
        invariant
            i <= entries@.len(),
            forall|j: int| 0 <= j < i ==> (#[trigger] entries@[j]).env_name@ != name@,
        decreases entries@.len() - i,
    {
        if str_eq(entries[i].env_name.as_str(), name) {
            return Some(i);
        }
        i = i + 1;
    }
    None
}

/// The value that the text `value` gives an option of type `ty`: the text
/// itself for a string, the integer or the boolean that it spells for those
/// types.
pub open spec fn override_of(ty: Seq<char>, value: Seq<char>) -> Result<
    Result<Seq<char>, Result<i64, bool>>,
    OverrideError,
> {
    if ty == "string"@ {
        Ok(Ok(value))
    } else if ty == "integer"@ {
        match parsed_integer(value) {
            Some(n) => Ok(Err(Ok(n))),
            None => Err(OverrideError::BadInteger),
        }
    } else if ty == "boolean"@ {
        if value == "true"@ {
            Ok(Err(Err(true)))
        } else if value == "false"@ {
            Ok(Err(Err(false)))
        } else {
            Err(OverrideError::BadBoolean)
        }
    } else {
        Err(OverrideError::UnsupportedType)
    }
}

/// The view of a value that overrides an option.
pub open spec fn override_view(v: OverrideValue) -> Result<Seq<char>, Result<i64, bool>> {
    match v {
        OverrideValue::Text(t) => Ok(t@),
        OverrideValue::Integer(n) => Err(Ok(n)),
        OverrideValue::Boolean(b) => Err(Err(b)),
    }
}

/// Resolves the variable `name` of the environment, with the text `value`,
/// against `entries`: the index of the option that it overrides and the
/// value that the option gets.
pub fn resolve_override(entries: &Vec<OptionEntry>, name: &str, value: &str) -> (r: Result<
    (usize, OverrideValue),
    OverrideError,
>)
    ensures
        match r {
            Ok((i, v)) => {
                &&& i < entries@.len()
                &&& entries@[i as int].env_name@ == name@
                &&& forall|j: int| 0 <= j < i ==> (#[trigger] entries@[j]).env_name@ != name@
                &&& override_of(entries@[i as int].ent_type@, value@) == Ok::<
                    Result<Seq<char>, Result<i64, bool>>,
                    OverrideError,
                >(override_view(v))
            },
            Err(OverrideError::UnknownVariable) => forall|j: int|
                0 <= j < entries@.len() ==> (#[trigger] entries@[j]).env_name@ != name@,
            Err(e) => exists|i: int|
                {
                    &&& 0 <= i < entries@.len()
                    &&& (#[trigger] entries@[i]).env_name@ == name@
                    &&& forall|j: int| 0 <= j < i ==> (#[trigger] entries@[j]).env_name@ != name@
                    &&& override_of(entries@[i].ent_type@, value@) == Err::<
                        Result<Seq<char>, Result<i64, bool>>,
                        OverrideError,
                    >(e)
                },
        },
{
    let found: Option<usize> = find_option(entries, name);
    let i: usize = match found {
        Some(i) => i,
        None => {
            return Err(OverrideError::UnknownVariable);
        },
    };
    let ty: &str = entries[i].ent_type;
    if str_eq(ty, "string") {
        Ok((i, OverrideValue::Text(value.to_string())))
    } else if str_eq(ty, "integer") {
        match parse_integer(value) {
            Some(n) => Ok((i, OverrideValue::Integer(n))),
            None => Err(OverrideError::BadInteger),
        }
    } else if str_eq(ty, "boolean") {
        if str_eq(value, "true") {
            Ok((i, OverrideValue::Boolean(true)))
        } else if str_eq(value, "false") {
            Ok((i, OverrideValue::Boolean(false)))
        } else {
            Err(OverrideError::BadBoolean)
        }
    } else {
        Err(OverrideError::UnsupportedType)
    }
}

} // verus!
