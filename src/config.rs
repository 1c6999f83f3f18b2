//! Configuration records, their defaults, and the checks made on them.
use vstd::prelude::*;
use crate::models::{Duration, Settings, Status, status_named};
use crate::text::{decimal, push_decimal};

verus! {

/// How much the server logs.
#[derive(Clone, Copy, Debug, PartialEq, Eq, Structural)]
pub enum LogLevel {
    Error,
    Warn,
    Info,
    Debug,
    Trace,
}

/// `c` and `d` are the same character when ASCII letters are compared without case.
pub open spec fn same_letter(c: char, d: char) -> bool {
    c == d || ('A' <= c && c <= 'Z' && c as u32 + 32 == d as u32) || ('A' <= d && d <= 'Z'
        && d as u32 + 32 == c as u32)
}

pub open spec fn eq_ignore_case(a: Seq<char>, b: Seq<char>) -> bool {
    a.len() == b.len() && forall|i: int| 0 <= i < a.len() ==> same_letter(a[i], b[i])
}

/// The level named `s`, ignoring ASCII case.
pub open spec fn level_named(s: Seq<char>) -> Option<LogLevel> {
    if eq_ignore_case("ERROR"@, s) {
        Some(LogLevel::Error)
    } else if eq_ignore_case("WARN"@, s) {
        Some(LogLevel::Warn)
    } else if eq_ignore_case("INFO"@, s) {
        Some(LogLevel::Info)
    } else if eq_ignore_case("DEBUG"@, s) {
        Some(LogLevel::Debug)
    } else if eq_ignore_case("TRACE"@, s) {
        Some(LogLevel::Trace)
    } else {
        None
    }
}

/// Relies on log::Level::from_str: it tries "ERROR", "WARN", "INFO", "DEBUG" and
/// "TRACE" in turn with `eq_ignore_ascii_case`, and fails on anything else.
#[verifier::external_body]
fn level_from_str(s: &str) -> (r: Option<LogLevel>)
    ensures
        r == level_named(s@),
{
    match <log::Level as std::str::FromStr>::from_str(s) {
        Ok(log::Level::Error) => Some(LogLevel::Error),
        Ok(log::Level::Warn) => Some(LogLevel::Warn),
        Ok(log::Level::Info) => Some(LogLevel::Info),
        Ok(log::Level::Debug) => Some(LogLevel::Debug),
        Ok(log::Level::Trace) => Some(LogLevel::Trace),
        Err(_) => None,
    }
}

/// Reads a log level name, without regard to ASCII case.
pub fn parse_log_level(s: &str) -> (r: Result<LogLevel, String>)
    ensures
        r is Ok <==> level_named(s@) is Some,
        r matches Ok(l) ==> level_named(s@) == Some(l),
        r matches Err(m) ==> m@ == "Invalid log level: "@ + s@,
{
    match level_from_str(s) {
        Some(l) => Ok(l),
        None => {
            let m = String::from_str("Invalid log level: ");
            let m = m.concat(s);
            Err(m)
        },
    }
}

/// The statuses named by `names`, in order, if every name is a status.
pub open spec fn statuses_named(names: Seq<String>) -> Option<Seq<Status>> {
    if forall|i: int| 0 <= i < names.len() ==> (#[trigger] status_named(names[i]@)) is Some {
        Some(Seq::new(names.len(), |i: int| status_named(names[i]@).unwrap()))
    } else {
        None
    }
}

/// Reads the statuses whose ended jobs the expiry pass removes. A single name
/// is handed in as a list of one.
pub fn parse_expiry_statuses(names: &Vec<String>) -> (r: Option<Vec<Status>>)
    ensures
        r matches Some(v) ==> statuses_named(names@) == Some(v@),
        r is None ==> statuses_named(names@) is None,
{
    let mut out: Vec<Status> = Vec::new();
    let mut i: usize = 0;
    while i < names.len()
        invariant
            i <= names.len(),
            out@.len() == i,
            forall|k: int| 0 <= k < i ==> (#[trigger] status_named(names@[k]@)) == Some(out@[k]),
        decreases names.len() - i,
    {
        match Status::parse(names[i].as_str()) {
            Some(st) => out.push(st),
            None => return None,
        }
        i = i + 1;
    }
    assert(out@ =~= Seq::new(names@.len(), |k: int| status_named(names@[k]@).unwrap()));
    Some(out)
}

/// Options given on the command line when the server starts.
#[derive(Debug)]
pub struct CliOpts {
    /// Path of the configuration file.
    pub config: Option<String>,
}

/// Configuration of the HTTP server and the reconciliation passes.
#[derive(Clone, Debug)]
pub struct ServerConfig {
    /// Host address to listen on.
    pub host: String,
    /// Port to listen on.
    pub port: u16,
    /// Number of HTTP worker threads; the number of CPUs where absent.
    pub threads: Option<usize>,
    /// Largest accepted request body, in bytes.
    pub max_body_size: Option<usize>,
    /// How often running jobs are checked for timeouts.
    pub timeout_check_interval: Duration,
    /// How often failed jobs are checked for a re-attempt.
    pub retry_check_interval: Duration,
    /// How often ended jobs are checked for expiry.
    pub expiry_check_interval: Duration,
    /// Statuses of ended jobs that the expiry pass removes.
    pub expiry_check_statuses: Vec<Status>,
    /// Time in-flight requests get to finish once shutdown starts.
    pub shutdown_timeout: Option<Duration>,
    /// Delay before answering a request for a job from an empty queue.
    pub next_job_delay: Option<Duration>,
    /// How much the server logs.
    pub log_level: LogLevel,
}

impl Default for ServerConfig {
    fn default() -> (r: ServerConfig)
        ensures
            r.host@ == "127.0.0.1"@,
            r.port == 8023,
            r.threads is None,
            r.max_body_size is None,
            r.timeout_check_interval.millis == 30_000,
            r.retry_check_interval.millis == 60_000,
            r.expiry_check_interval.millis == 300_000,
            r.expiry_check_statuses@ == seq![
                Status::Failed,
                Status::Completed,
                Status::Cancelled,
                Status::TimedOut,
            ],
            r.shutdown_timeout is None,
            r.next_job_delay is None,
            r.log_level == LogLevel::Info,
    {
        ServerConfig {
            host: String::from_str("127.0.0.1"),
            port: 8023,
            threads: None,
            max_body_size: None,
            timeout_check_interval: Duration::from_secs(30),
            retry_check_interval: Duration::from_secs(60),
            expiry_check_interval: Duration::from_secs(300),
            expiry_check_statuses: vec![
                Status::Failed,
                Status::Completed,
                Status::Cancelled,
                Status::TimedOut,
            ],
            shutdown_timeout: None,
            next_job_delay: None,
            log_level: LogLevel::Info,
        }
    }
}

/// Configuration for connecting to Redis.
#[derive(Clone, Debug)]
pub struct RedisConfig {
    pub url: String,
}

impl Default for RedisConfig {
    fn default() -> (r: RedisConfig)
        ensures
            r.url@ == "redis://127.0.0.1"@,
    {
        RedisConfig { url: String::from_str("redis://127.0.0.1") }
    }
}

/// The whole configuration.
#[derive(Clone, Debug)]
pub struct Config {
    pub server: ServerConfig,
    pub redis: RedisConfig,
    /// Queues to be created at startup, by name.
    pub queue: Option<Vec<(String, Settings)>>,
}

impl Default for Config {
    fn default() -> (r: Config)
        ensures
            r.server.host@ == "127.0.0.1"@,
            r.server.port == 8023,
            r.redis.url@ == "redis://127.0.0.1"@,
            r.queue is None,
    {
        Config { server: ServerConfig::default(), redis: RedisConfig::default(), queue: None }
    }
}

/// The longest shutdown timeout accepted, in seconds.
pub const MAX_SHUTDOWN_SECS: u64 = 65535;

impl Config {
    /// The address the HTTP server listens on: host, a colon, and the port.
    pub fn server_addr(&self) -> (r: String)
        ensures
            r@ == self.server.host@ + ":"@ + decimal(self.server.port as nat),
    {
        let mut s = self.server.host.clone();
        s.append(":");
        push_decimal(&mut s, self.server.port as u64);
        s
    }

    /// The URL of the Redis server.
    pub fn redis_url(&self) -> (r: &str)
        ensures
            r@ == self.redis.url@,
    {
        self.redis.url.as_str()
    }

    /// Checks the settings that the parser cannot: the shutdown timeout is at
    /// most 65535 seconds.
    pub fn validate(&self) -> (r: Result<(), String>)
        ensures
            r is Err <==> (self.server.shutdown_timeout matches Some(d) && d.millis / 1000
                > MAX_SHUTDOWN_SECS),
            r matches Err(m) ==> m@ == "Maximum shutdown_timeout is 65535 seconds"@,
    {
        match &self.server.shutdown_timeout {
            Some(d) => {
                if d.as_secs() > MAX_SHUTDOWN_SECS {
                    Err(String::from_str("Maximum shutdown_timeout is 65535 seconds"))
                } else {
                    Ok(())
                }
            },
            None => Ok(()),
        }
    }
}

} // verus!
