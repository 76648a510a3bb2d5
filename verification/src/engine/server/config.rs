//! The configuration of the server: environment values with defaults from the
//! machine. A malformed value is an error, never a silent default.
use vstd::prelude::*;

use crate::dsl::codegen::diag::text_of;
use crate::text::{
    lines, lines_of, outcome, parse_number, parse_u64, quote, quoted, starts_with, trim, trimmed,
    words, words_of, Text,
};

verus! {

/// The configuration of the server.
#[derive(Debug, Clone, PartialEq, Eq)]
pub struct Config {
    /// Where to listen, `host:port`.
    pub addr: String,
    /// How many worker threads there are.
    pub workers: usize,
    /// How many bytes may be reserved at once.
    pub mem_budget_bytes: u64,
    /// How many bytes a request reserves for each byte of its body.
    pub mem_blowup: u64,
}

/// The model of a [`Config`].
#[verifier::ext_equal]
pub struct ServerConfigV {
    pub addr: Text,
    pub workers: usize,
    pub mem_budget_bytes: u64,
    pub mem_blowup: u64,
}

impl DeepView for Config {
    type V = ServerConfigV;

    open spec fn deep_view(&self) -> ServerConfigV {
        ServerConfigV {
            addr: self.addr@,
            workers: self.workers,
            mem_budget_bytes: self.mem_budget_bytes,
            mem_blowup: self.mem_blowup,
        }
    }
}

/// Why the server cannot start.
#[derive(Debug, Clone, PartialEq, Eq)]
pub enum ConfigError {
    /// A variable holds a value that cannot be used.
    Invalid {
        /// The name of the variable.
        var: &'static str,
        /// Its value.
        value: String,
        /// What is wrong with it.
        reason: String,
    },
    /// The memory cannot be detected, and no budget is given.
    NoMemorySource,
}

/// The model of a [`ConfigError`].
#[verifier::ext_equal]
pub enum StartErrorV {
    Invalid { var: Text, value: Text, reason: Text },
    NoMemorySource,
}

impl DeepView for ConfigError {
    type V = StartErrorV;

    open spec fn deep_view(&self) -> StartErrorV {
        match self {
            ConfigError::Invalid { var, value, reason } => StartErrorV::Invalid {
                var: var@,
                value: value@,
                reason: reason@,
            },
            ConfigError::NoMemorySource => StartErrorV::NoMemorySource,
        }
    }
}

/// The message of an error.
pub open spec fn start_message(e: StartErrorV) -> Text {
    match e {
        StartErrorV::Invalid { var, value, reason } => "invalid "@ + var + "="@ + quoted(value)
            + ": "@ + reason,
        StartErrorV::NoMemorySource =>
            "cannot detect system memory (no cgroup limit, no /proc/meminfo); set KRAB_MEM_BUDGET_BYTES"@,
    }
}

impl ConfigError {
    /// The message of the error.
    pub fn message(&self) -> (out: String)
        ensures
            out@ == start_message(self.deep_view()),
    {
        match self {
            ConfigError::Invalid { var, value, reason } => {
                let mut out = "invalid ".to_string();
                out.push_str(var);
                out.push_str("=");
                out.push_str(quote(value.as_str()).as_str());
                out.push_str(": ");
                out.push_str(reason.as_str());
                out
            },
            ConfigError::NoMemorySource =>
                "cannot detect system memory (no cgroup limit, no /proc/meminfo); set KRAB_MEM_BUDGET_BYTES".to_string(),
        }
    }
}

/// The positive number that the value of a variable stands for.
pub open spec fn positive(var: Text, value: Text) -> Result<u64, StartErrorV> {
    match parse_number(trim(value)) {
        None => Err(
            StartErrorV::Invalid { var, value, reason: "expected a positive integer"@ },
        ),
        Some(n) => if n == 0 {
            Err(StartErrorV::Invalid { var, value, reason: "must be greater than zero"@ })
        } else {
            Ok(n)
        },
    }
}

/// An unusable value.
fn invalid(var: &'static str, value: &str, reason: &str) -> (e: ConfigError)
    ensures
        e.deep_view() == (StartErrorV::Invalid { var: var@, value: value@, reason: reason@ }),
{
    ConfigError::Invalid { var, value: value.to_string(), reason: reason.to_string() }
}

/// The positive number that the value of a variable stands for.
pub fn parse_nonzero(var: &'static str, value: &str) -> (r: Result<u64, ConfigError>)
    ensures
        match r {
            Ok(n) => positive(var@, value@) == Ok::<u64, StartErrorV>(n),
            Err(e) => positive(var@, value@) == Err::<u64, StartErrorV>(e.deep_view()),
        },
{
    match parse_u64(trimmed(value).as_str()) {
        None => Err(invalid(var, value, "expected a positive integer")),
        Some(n) => if n == 0 {
            Err(invalid(var, value, "must be greater than zero"))
        } else {
            Ok(n)
        },
    }
}

/// The values of the environment variables that the server knows.
#[verifier::ext_equal]
pub struct EnvV {
    pub addr: Option<Text>,
    pub workers: Option<Text>,
    pub budget: Option<Text>,
    pub blowup: Option<Text>,
}

/// How many workers there are: as the environment says, or one for each core.
pub open spec fn workers_of(env: EnvV, cores: usize) -> Result<usize, StartErrorV> {
    match env.workers {
        None => Ok(cores),
        Some(v) => match positive("KRAB_WORKERS"@, v) {
            Ok(n) => Ok(n as usize),
            Err(e) => Err(e),
        },
    }
}

/// How many bytes may be reserved: as the environment says, or half of the memory.
pub open spec fn budget_of(env: EnvV, memory: Option<u64>) -> Result<u64, StartErrorV> {
    match env.budget {
        Some(v) => positive("KRAB_MEM_BUDGET_BYTES"@, v),
        None => match memory {
            Some(m) => Ok((m / 2) as u64),
            None => Err(StartErrorV::NoMemorySource),
        },
    }
}

/// How many bytes a request reserves for each byte of its body: as the environment
/// says, or seven.
pub open spec fn blowup_of(env: EnvV) -> Result<u64, StartErrorV> {
    match env.blowup {
        Some(v) => positive("KRAB_MEM_BLOWUP"@, v),
        None => Ok(7),
    }
}

/// The configuration for an environment and a machine; the first unusable value is
/// the error.
pub open spec fn config_of(env: EnvV, memory: Option<u64>, cores: usize) -> Result<
    ServerConfigV,
    StartErrorV,
> {
    match workers_of(env, cores) {
        Err(e) => Err(e),
        Ok(workers) => match budget_of(env, memory) {
            Err(e) => Err(e),
            Ok(mem_budget_bytes) => match blowup_of(env) {
                Err(e) => Err(e),
                Ok(mem_blowup) => Ok(
                    ServerConfigV {
                        addr: match env.addr {
                            Some(a) => a,
                            None => "0.0.0.0:8080"@,
                        },
                        workers,
                        mem_budget_bytes,
                        mem_blowup,
                    },
                ),
            },
        },
    }
}

/// The values of the environment variables that the server knows.
#[derive(Debug, Clone)]
pub struct Env {
    /// `KRAB_ADDR`.
    pub addr: Option<String>,
    /// `KRAB_WORKERS`.
    pub workers: Option<String>,
    /// `KRAB_MEM_BUDGET_BYTES`.
    pub budget: Option<String>,
    /// `KRAB_MEM_BLOWUP`.
    pub blowup: Option<String>,
}

impl View for Env {
    type V = EnvV;

    open spec fn view(&self) -> EnvV {
        EnvV {
            addr: self.addr.deep_view(),
            workers: self.workers.deep_view(),
            budget: self.budget.deep_view(),
            blowup: self.blowup.deep_view(),
        }
    }
}

/// Whether `env` is what `lookup` may say of the variables that the server knows.
pub open spec fn looked_up<F: Fn(&str) -> Option<String>>(lookup: F, env: Env) -> bool {
    &&& call_ensures(lookup, ("KRAB_WORKERS",), env.workers)
    &&& call_ensures(lookup, ("KRAB_MEM_BUDGET_BYTES",), env.budget)
    &&& call_ensures(lookup, ("KRAB_MEM_BLOWUP",), env.blowup)
    &&& call_ensures(lookup, ("KRAB_ADDR",), env.addr)
}

/// Whether a name is that of a variable that sets the configuration.
pub open spec fn is_variable(name: Text) -> bool {
    name == "KRAB_WORKERS"@ || name == "KRAB_MEM_BUDGET_BYTES"@ || name == "KRAB_MEM_BLOWUP"@
        || name == "KRAB_ADDR"@
}

impl Config {
    /// The configuration for the values of the environment and what was detected
    /// of the machine.
    pub fn from_values(env: &Env, detected_mem: Option<u64>, detected_cores: usize) -> (r: Result<
        Config,
        ConfigError,
    >)
        ensures
            outcome(r) == config_of(env@, detected_mem, detected_cores),
    {
        let workers = match &env.workers {
            Some(v) => match parse_nonzero("KRAB_WORKERS", v.as_str()) {
                Ok(n) => n as usize,
                Err(e) => {
                    return Err(e);
                },
            },
            None => detected_cores,
        };
        let mem_budget_bytes = match &env.budget {
            Some(v) => match parse_nonzero("KRAB_MEM_BUDGET_BYTES", v.as_str()) {
                Ok(n) => n,
                Err(e) => {
                    return Err(e);
                },
            },
            None => match detected_mem {
                Some(m) => m / 2,
                None => {
                    return Err(ConfigError::NoMemorySource);
                },
            },
        };
        let mem_blowup = match &env.blowup {
            Some(v) => match parse_nonzero("KRAB_MEM_BLOWUP", v.as_str()) {
                Ok(n) => n,
                Err(e) => {
                    return Err(e);
                },
            },
            None => 7,
        };
        let addr = match &env.addr {
            Some(a) => a.clone(),
            None => "0.0.0.0:8080".to_string(),
        };
        Ok(Config { addr, workers, mem_budget_bytes, mem_blowup })
    }

    /// The configuration for an environment, which `lookup` reads, and what was
    /// detected of the machine.
    pub fn resolve<F: Fn(&str) -> Option<String>>(
        lookup: F,
        detected_mem: Option<u64>,
        detected_cores: usize,
    ) -> (r: Result<Config, ConfigError>)
        requires
            forall|name: &str| is_variable(name@) ==> #[trigger] call_requires(lookup, (name,)),
        ensures
            exists|env: Env|
                #[trigger] looked_up(lookup, env) && outcome(r) == config_of(
                    env@,
                    detected_mem,
                    detected_cores,
                ),
    {
        let workers = lookup("KRAB_WORKERS");
        let budget = lookup("KRAB_MEM_BUDGET_BYTES");
        let blowup = lookup("KRAB_MEM_BLOWUP");
        let addr = lookup("KRAB_ADDR");
        let env = Env { addr, workers, budget, blowup };
        assert(looked_up(lookup, env));
        Config::from_values(&env, detected_mem, detected_cores)
    }
}

/// A worker count, a memory budget or a blowup that the environment sets is
/// positive.
pub proof fn law_environment_values_are_positive(env: EnvV, memory: Option<u64>, cores: usize)
    requires
        config_of(env, memory, cores) is Ok,
    ensures
        env.budget is Some ==> config_of(env, memory, cores)->Ok_0.mem_budget_bytes > 0,
        config_of(env, memory, cores)->Ok_0.mem_blowup > 0,
{
}

/// The number of bytes in a cgroup limit; none where it is `max` or malformed.
pub fn parse_cgroup_max(contents: &str) -> (r: Option<u64>)
    ensures
        r == parse_number(trim(contents@)),
{
    parse_u64(trimmed(contents).as_str())
}

/// The first line, from position `i` on, that says how much memory there is.
pub open spec fn total_line(all: Seq<Text>, i: int) -> int
    decreases all.len() - i,
{
    if i >= all.len() || "MemTotal:"@.is_prefix_of(all[i]) {
        i
    } else {
        total_line(all, i + 1)
    }
}

/// The kilobytes that `/proc/meminfo` says there are.
pub open spec fn total_kilobytes(contents: Text) -> Option<u64> {
    let all = lines(contents);
    let i = total_line(all, 0);
    if i < all.len() && words(all[i]).len() > 1 {
        parse_number(words(all[i])[1])
    } else {
        None
    }
}

/// The kilobytes that `/proc/meminfo` says there are.
pub fn meminfo_kilobytes(contents: &str) -> (r: Option<u64>)
    ensures
        r == total_kilobytes(contents@),
{
    let all = lines_of(contents);
    let ghost views = lines(contents@);
    let mut i: usize = 0;
    while i < all.len()
        invariant
            i <= all.len(),
            views == all.deep_view(),
            views == lines(contents@),
            total_line(views, 0) == total_line(views, i as int),
        decreases all.len() - i,
    {
        let line = all[i].as_str();
        assert(views[i as int] == line@);
        if starts_with(line, "MemTotal:") {
            let parts = words_of(line);
            assert(parts@.len() == parts.deep_view().len());
            if parts.len() > 1 {
                assert(parts.deep_view()[1] == parts@[1]@);
                return parse_u64(parts[1].as_str());
            } else {
                return None;
            }
        }
        i += 1;
    }
    assert(views.len() == all@.len());
    None
}

/// The bytes of memory that `/proc/meminfo` says there are.
pub fn parse_meminfo(contents: &str) -> (r: Option<u64>)
    requires
        total_kilobytes(contents@) matches Some(kb) ==> kb * 1024 <= u64::MAX,
    ensures
        r == match total_kilobytes(contents@) {
            Some(kb) => Some((kb * 1024) as u64),
            None => None,
        },
{
    match meminfo_kilobytes(contents) {
        Some(kb) => Some(kb * 1024),
        None => None,
    }
}

/// The memory that can be used: the limit of the cgroup, or else what
/// `/proc/meminfo` says.
pub open spec fn memory_of(cgroup: Option<Text>, meminfo: Option<Text>) -> Option<u64> {
    let limit = match cgroup {
        Some(c) => parse_number(trim(c)),
        None => None,
    };
    match limit {
        Some(n) => Some(n),
        None => match meminfo {
            Some(m) => match total_kilobytes(m) {
                Some(kb) => Some((kb * 1024) as u64),
                None => None,
            },
            None => None,
        },
    }
}

/// The memory that can be used, from the contents of the two files.
pub fn detect_memory(cgroup: Option<&str>, meminfo: Option<&str>) -> (r: Option<u64>)
    requires
        text_of(meminfo) matches Some(m) ==> (total_kilobytes(m) matches Some(kb) ==> kb * 1024
            <= u64::MAX),
    ensures
        r == memory_of(text_of(cgroup), text_of(meminfo)),
{
    if let Some(c) = cgroup {
        if let Some(n) = parse_cgroup_max(c) {
            return Some(n);
        }
    }
    match meminfo {
        Some(m) => parse_meminfo(m),
        None => None,
    }
}

} // verus!
