//! What a node is told to watch, and what it may be asked to do.
//!
//! Every option is an environment variable with a `ZYRISD_` prefix, so that none can collide with
//! the variables of the runtime underneath.

use vstd::prelude::*;
use vstd::string::*;

use crate::env::Env;
use crate::numbers;
use crate::numbers::parse_unsigned;
use crate::text;
use crate::text::{list_of, same};
use crate::time::Duration;

verus! {

/// How often the watcher samples, in seconds, where nothing says otherwise.
pub const DEFAULT_MONITOR_INTERVAL_SECS: u64 = 30;

/// How long a command may run, in seconds, where nothing says otherwise.
pub const DEFAULT_EXEC_TIMEOUT_SECS: u64 = 120;

/// How many bytes each stream of a command may carry back, where nothing says otherwise.
pub const DEFAULT_MAX_OUTPUT_BYTES: usize = 262_144;

/// What a healing session is told where nothing says otherwise.
pub const DEFAULT_HEAL_PREAMBLE: &'static str = "You are the self-healing incident responder for this container node. An incident was detected on the node's system, Docker or Kubernetes state. Diagnose the root cause with the node's `monitor` and `exec` capabilities, resolve it if you can (restart a stopped service or container, recover a pod), and then report back concisely: what broke, what you found, what you did, and what remains.";

/// Every option of the node.
#[derive(Clone)]
pub struct Config {
    /// How often the watcher samples system, container and cluster state.
    pub monitor_interval: Duration,
    /// Names of processes that must be running.
    pub watch_processes: Vec<String>,
    /// Names of containers that must be running.
    pub watch_containers: Vec<String>,
    /// Whether pods and nodes of the cluster are watched.
    pub watch_k8s: bool,
    /// The agent that healing sessions are opened against: the first readable one where unset.
    pub heal_agent_id: Option<String>,
    /// The project that healing sessions are filed under: the account's default where unset.
    pub heal_project_id: Option<String>,
    /// What every healing session is told.
    pub heal_preamble: String,
    /// The directories that an agent may touch.
    pub file_roots: Vec<String>,
    /// How long a command may run. Callers may ask for less, never for more.
    pub exec_timeout: Duration,
}

/// Whether a value switches something on.
pub open spec fn switched_on(value: Seq<char>) -> bool {
    value == "1"@ || value == "true"@ || value == "yes"@ || value == "on"@
}

/// What a switch is set to: off where it is not set.
pub open spec fn flag(value: Option<Seq<char>>) -> bool {
    value matches Some(v) && switched_on(v)
}

/// What a list holds: nothing where it is not set.
pub open spec fn list(value: Option<Seq<char>>) -> Seq<Seq<char>> {
    match value {
        Some(v) => text::listed(v),
        None => Seq::empty(),
    }
}

/// A number of seconds in nanoseconds: the default where it is not set, or not to a number.
pub open spec fn seconds(value: Option<Seq<char>>, default: u64) -> nat {
    match value {
        Some(v) => match numbers::unsigned_read(v, u64::MAX as nat) {
            Some(n) => n * 1_000_000_000,
            None => default as nat * 1_000_000_000,
        },
        None => default as nat * 1_000_000_000,
    }
}

/// A number of bytes: the default where it is not set, or not to a number above zero.
pub open spec fn byte_cap(value: Option<Seq<char>>, default: usize) -> nat {
    match value {
        Some(v) => match numbers::unsigned_read(v, usize::MAX as nat) {
            Some(n) => if n > 0 {
                n
            } else {
                default as nat
            },
            None => default as nat,
        },
        None => default as nat,
    }
}

/// Whether a variable is switched on.
pub fn env_bool(env: &Env, key: &str) -> (yes: bool)
    ensures
        yes == flag(env.filled_text(key@)),
{
    match env.env_str(key) {
        Some(v) => same(v.as_str(), "1") || same(v.as_str(), "true") || same(v.as_str(), "yes")
            || same(v.as_str(), "on"),
        None => false,
    }
}

/// The entries of a variable that holds a comma-separated list.
pub fn env_csv(env: &Env, key: &str) -> (out: Vec<String>)
    ensures
        out.deep_view() == list(env.filled_text(key@)),
{
    match env.env_str(key) {
        Some(v) => list_of(v.as_str()),
        None => {
            let none: Vec<String> = Vec::new();
            assert(none.deep_view() == Seq::<Seq<char>>::empty());
            none
        },
    }
}

/// The span of a variable that holds a number of seconds.
pub fn env_duration_secs(env: &Env, key: &str, default: u64) -> (out: Duration)
    ensures
        out@ == seconds(env.filled_text(key@), default),
{
    match env.env_str(key) {
        Some(v) => match parse_unsigned(v.as_str(), u64::MAX) {
            Some(secs) => Duration::from_secs(secs),
            None => Duration::from_secs(default),
        },
        None => Duration::from_secs(default),
    }
}

/// How many bytes of each stream of a command come back.
pub open spec fn output_cap(env: Env) -> nat {
    byte_cap(env.filled_text("ZYRISD_MAX_OUTPUT_BYTES"@), DEFAULT_MAX_OUTPUT_BYTES)
}

impl Config {
    /// Whether these are the options that an environment sets, with the defaults for the others.
    pub open spec fn is_read_from(&self, env: Env) -> bool {
        &&& self.monitor_interval@ == seconds(
            env.filled_text("ZYRISD_MONITOR_INTERVAL_SECS"@),
            DEFAULT_MONITOR_INTERVAL_SECS,
        )
        &&& self.watch_processes.deep_view() == list(env.filled_text("ZYRISD_WATCH_PROCESSES"@))
        &&& self.watch_containers.deep_view() == list(env.filled_text("ZYRISD_WATCH_CONTAINERS"@))
        &&& self.watch_k8s == flag(env.filled_text("ZYRISD_WATCH_K8S"@))
        &&& self.heal_agent_id.deep_view() == env.filled_text("ZYRISD_HEAL_AGENT_ID"@)
        &&& self.heal_project_id.deep_view() == env.filled_text("ZYRISD_HEAL_PROJECT_ID"@)
        &&& self.heal_preamble@ == match env.filled_text("ZYRISD_HEAL_PREAMBLE"@) {
            Some(v) => v,
            None => DEFAULT_HEAL_PREAMBLE@,
        }
        &&& self.file_roots.deep_view() == list(env.filled_text("ZYRISD_FILE_ROOTS"@))
        &&& self.exec_timeout@ == seconds(
            env.filled_text("ZYRISD_EXEC_TIMEOUT_SECS"@),
            DEFAULT_EXEC_TIMEOUT_SECS,
        )
    }

    /// Reads every option.
    pub fn from_env(env: &Env) -> (config: Config)
        ensures
            config.is_read_from(*env),
            config.monitor_interval@ == seconds(
                env.filled_text("ZYRISD_MONITOR_INTERVAL_SECS"@),
                DEFAULT_MONITOR_INTERVAL_SECS,
            ),
            config.watch_processes.deep_view() == list(
                env.filled_text("ZYRISD_WATCH_PROCESSES"@),
            ),
            config.watch_containers.deep_view() == list(
                env.filled_text("ZYRISD_WATCH_CONTAINERS"@),
            ),
            config.watch_k8s == flag(env.filled_text("ZYRISD_WATCH_K8S"@)),
            config.heal_agent_id.deep_view() == env.filled_text("ZYRISD_HEAL_AGENT_ID"@),
            config.heal_project_id.deep_view() == env.filled_text("ZYRISD_HEAL_PROJECT_ID"@),
            config.heal_preamble@ == match env.filled_text("ZYRISD_HEAL_PREAMBLE"@) {
                Some(v) => v,
                None => DEFAULT_HEAL_PREAMBLE@,
            },
            config.file_roots.deep_view() == list(env.filled_text("ZYRISD_FILE_ROOTS"@)),
            config.exec_timeout@ == seconds(
                env.filled_text("ZYRISD_EXEC_TIMEOUT_SECS"@),
                DEFAULT_EXEC_TIMEOUT_SECS,
            ),
    {
        Config {
            monitor_interval: env_duration_secs(
                env,
                "ZYRISD_MONITOR_INTERVAL_SECS",
                DEFAULT_MONITOR_INTERVAL_SECS,
            ),
            watch_processes: env_csv(env, "ZYRISD_WATCH_PROCESSES"),
            watch_containers: env_csv(env, "ZYRISD_WATCH_CONTAINERS"),
            watch_k8s: env_bool(env, "ZYRISD_WATCH_K8S"),
            heal_agent_id: env.env_str("ZYRISD_HEAL_AGENT_ID"),
            heal_project_id: env.env_str("ZYRISD_HEAL_PROJECT_ID"),
            heal_preamble: env.env_or("ZYRISD_HEAL_PREAMBLE", DEFAULT_HEAL_PREAMBLE.to_owned()),
            file_roots: env_csv(env, "ZYRISD_FILE_ROOTS"),
            exec_timeout: env_duration_secs(
                env,
                "ZYRISD_EXEC_TIMEOUT_SECS",
                DEFAULT_EXEC_TIMEOUT_SECS,
            ),
        }
    }

    /// How many bytes each stream of a command may carry back before the surplus is discarded.
    pub fn max_output_bytes(&self, env: &Env) -> (cap: usize)
        ensures
            cap as nat == output_cap(*env),
            cap as nat == byte_cap(
                env.filled_text("ZYRISD_MAX_OUTPUT_BYTES"@),
                DEFAULT_MAX_OUTPUT_BYTES,
            ),
            cap > 0,
    {
        match env.env_str("ZYRISD_MAX_OUTPUT_BYTES") {
            Some(v) => match parse_unsigned(v.as_str(), usize::MAX as u64) {
                Some(n) => if n > 0 {
                    n as usize
                } else {
                    DEFAULT_MAX_OUTPUT_BYTES
                },
                None => DEFAULT_MAX_OUTPUT_BYTES,
            },
            None => DEFAULT_MAX_OUTPUT_BYTES,
        }
    }
}

/// Every entry of a list option is trimmed and none is empty.
pub proof fn listed_options_are_trimmed_and_not_empty(value: Option<Seq<char>>)
    ensures
        forall|i: int|
            0 <= i < list(value).len() ==> (#[trigger] list(value)[i]).len() > 0 && text::trimmed(
                list(value)[i],
            ) == list(value)[i],
{
    if let Some(v) = value {
        text::list_entries_are_trimmed_and_not_empty(text::pieces(v, ','));
    }
}

/// A switch is on exactly where one of the four words that say so is set.
pub proof fn a_switch_is_on_only_where_it_says_so(value: Option<Seq<char>>)
    ensures
        flag(value) <==> value == Some("1"@) || value == Some("true"@) || value == Some("yes"@)
            || value == Some("on"@),
        flag(None) == false,
{
}

/// A number of seconds that is set is that long, and what is not set, or no number, is the default.
/// A number of bytes is kept likewise, but zero counts as not set.
pub proof fn a_number_that_is_set_is_kept(n: nat, value: Option<Seq<char>>, default: u64, bytes: usize)
    ensures
        n <= u64::MAX ==> seconds(Some(numbers::decimal(n)), default) == n * 1_000_000_000,
        seconds(None, default) == default * 1_000_000_000,
        value is Some && numbers::unsigned_read(value->0, u64::MAX as nat) is None ==> seconds(
            value,
            default,
        ) == default * 1_000_000_000,
        0 < n <= usize::MAX ==> byte_cap(Some(numbers::decimal(n)), bytes) == n,
        byte_cap(Some(numbers::decimal(0)), bytes) == bytes,
        byte_cap(None, bytes) == bytes,
        value is Some && numbers::unsigned_read(value->0, usize::MAX as nat) is None ==> byte_cap(
            value,
            bytes,
        ) == bytes,
{
    if n <= u64::MAX {
        numbers::a_written_number_reads_back(n, u64::MAX as nat);
    }
    if n <= usize::MAX {
        numbers::a_written_number_reads_back(n, usize::MAX as nat);
    }
    numbers::a_written_number_reads_back(0, usize::MAX as nat);
}

/// A list that is set is read at its commas, and one that is not set is empty.
pub proof fn a_list_that_is_set_is_read_at_its_commas(a: Seq<char>, b: Seq<char>)
    ensures
        list(Some(a.push(',') + b)) == list(Some(a)) + list(Some(b)),
        !a.contains(',') && text::trimmed(a).len() > 0 ==> list(Some(a)) == seq![text::trimmed(a)],
        list(None) == Seq::<Seq<char>>::empty(),
{
    text::a_list_is_read_entry_by_entry(a, b);
}

/// Each variable sets its own option: what is watched, how often, whom healing sessions go to, what
/// may be touched and how long a command may run.
pub proof fn each_variable_sets_its_own_option(env: Env, config: Config, n: nat, s: Seq<char>)
    requires
        config.is_read_from(env),
        n <= u64::MAX,
        !s.contains(','),
        text::trimmed(s) == s,
        s.len() > 0,
    ensures
        env.filled_text("ZYRISD_MONITOR_INTERVAL_SECS"@) == Some(numbers::decimal(n))
            ==> config.monitor_interval@ == n * 1_000_000_000,
        env.filled_text("ZYRISD_EXEC_TIMEOUT_SECS"@) == Some(numbers::decimal(n))
            ==> config.exec_timeout@ == n * 1_000_000_000,
        env.filled_text("ZYRISD_WATCH_PROCESSES"@) == Some(s) ==> config.watch_processes.deep_view()
            == seq![s],
        env.filled_text("ZYRISD_WATCH_CONTAINERS"@) == Some(s)
            ==> config.watch_containers.deep_view() == seq![s],
        env.filled_text("ZYRISD_FILE_ROOTS"@) == Some(s) ==> config.file_roots.deep_view() == seq![
            s,
        ],
        env.filled_text("ZYRISD_WATCH_K8S"@) == Some("1"@) ==> config.watch_k8s,
        env.filled_text("ZYRISD_HEAL_AGENT_ID"@) == Some(s) ==> config.heal_agent_id is Some
            && config.heal_agent_id->0@ == s,
        env.filled_text("ZYRISD_HEAL_PROJECT_ID"@) == Some(s) ==> config.heal_project_id is Some
            && config.heal_project_id->0@ == s,
        env.filled_text("ZYRISD_HEAL_PREAMBLE"@) == Some(s) ==> config.heal_preamble@ == s,
{
    a_number_that_is_set_is_kept(n, None, DEFAULT_MONITOR_INTERVAL_SECS, 0);
    a_number_that_is_set_is_kept(n, None, DEFAULT_EXEC_TIMEOUT_SECS, 0);
    a_list_that_is_set_is_read_at_its_commas(s, s);
}

/// Where nothing is set nothing is watched, a sample is taken every 30 seconds, a command may run
/// for two minutes, any agent may be asked, and the directories are left to their default.
pub proof fn what_is_not_set_has_its_default(env: Env, config: Config)
    requires
        config.is_read_from(env),
    ensures
        env.filled_text("ZYRISD_MONITOR_INTERVAL_SECS"@) is None ==> config.monitor_interval@
            == 30_000_000_000,
        env.filled_text("ZYRISD_EXEC_TIMEOUT_SECS"@) is None ==> config.exec_timeout@
            == 120_000_000_000,
        env.filled_text("ZYRISD_WATCH_PROCESSES"@) is None ==> config.watch_processes@.len() == 0,
        env.filled_text("ZYRISD_WATCH_CONTAINERS"@) is None ==> config.watch_containers@.len() == 0,
        env.filled_text("ZYRISD_FILE_ROOTS"@) is None ==> config.file_roots@.len() == 0,
        env.filled_text("ZYRISD_WATCH_K8S"@) is None ==> !config.watch_k8s,
        env.filled_text("ZYRISD_HEAL_AGENT_ID"@) is None ==> config.heal_agent_id is None,
        env.filled_text("ZYRISD_HEAL_PROJECT_ID"@) is None ==> config.heal_project_id is None,
{
    assert(config.watch_processes.deep_view().len() == config.watch_processes@.len());
    assert(config.watch_containers.deep_view().len() == config.watch_containers@.len());
    assert(config.file_roots.deep_view().len() == config.file_roots@.len());
}

/// As many bytes of a stream come back as are set, and 256 KiB where nothing is. It is never none.
pub proof fn some_output_always_comes_back(env: Env, n: nat)
    ensures
        0 < n <= usize::MAX && env.filled_text("ZYRISD_MAX_OUTPUT_BYTES"@) == Some(
            numbers::decimal(n),
        ) ==> output_cap(env) == n,
        env.filled_text("ZYRISD_MAX_OUTPUT_BYTES"@) is None ==> output_cap(env) == 256 * 1024,
        output_cap(env) > 0,
{
    a_number_that_is_set_is_kept(n, None, 0, DEFAULT_MAX_OUTPUT_BYTES);
}

} // verus!
