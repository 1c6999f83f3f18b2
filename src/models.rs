//! Durations, job statuses, queue settings and job creation requests.
use vstd::prelude::*;

verus! {

/// A length of time, held in whole milliseconds.
#[derive(Clone, Copy, Debug, PartialEq, Eq, Structural)]
pub struct Duration {
    pub millis: u64,
}

impl Duration {
    /// A duration of `s` whole seconds.
    pub fn from_secs(s: u64) -> (r: Duration)
        requires
            s <= u64::MAX / 1000,
        ensures
            r.millis == s * 1000,
    {
        Duration { millis: s * 1000 }
    }

    /// Whole seconds in this duration, rounded down.
    pub fn as_secs(&self) -> (r: u64)
        ensures
            r == self.millis / 1000,
    {
        self.millis / 1000
    }

    pub fn is_zero(&self) -> (r: bool)
        ensures
            r == (self.millis == 0),
    {
        self.millis == 0
    }
}

/// `a + b`, held at `u64::MAX` where the sum would not fit.
pub open spec fn sat_add(a: u64, b: u64) -> u64 {
    if a + b > u64::MAX {
        u64::MAX
    } else {
        (a + b) as u64
    }
}

/// The instant `d` after `t`, held at the largest instant.
pub fn after(t: u64, d: Duration) -> (r: u64)
    ensures
        r == sat_add(t, d.millis),
{
    if t > u64::MAX - d.millis {
        u64::MAX
    } else {
        t + d.millis
    }
}

/// The status of a job.
#[derive(Clone, Copy, Debug, PartialEq, Eq, Structural)]
pub enum Status {
    Queued,
    Running,
    Failed,
    TimedOut,
    Completed,
    Cancelled,
}

/// The name a status is written with.
pub open spec fn status_name(s: Status) -> Seq<char> {
    match s {
        Status::Queued => "queued"@,
        Status::Running => "running"@,
        Status::Failed => "failed"@,
        Status::TimedOut => "timed_out"@,
        Status::Completed => "completed"@,
        Status::Cancelled => "cancelled"@,
    }
}

/// The status written as `s`, if any.
pub open spec fn status_named(s: Seq<char>) -> Option<Status> {
    if s == "queued"@ {
        Some(Status::Queued)
    } else if s == "running"@ {
        Some(Status::Running)
    } else if s == "failed"@ {
        Some(Status::Failed)
    } else if s == "timed_out"@ {
        Some(Status::TimedOut)
    } else if s == "completed"@ {
        Some(Status::Completed)
    } else if s == "cancelled"@ {
        Some(Status::Cancelled)
    } else {
        None
    }
}

/// Whether the two character sequences are equal, compared one by one.
pub fn str_eq(a: &str, b: &str) -> (r: bool)
    ensures
        r == (a@ == b@),
{
    let n = a.unicode_len();
    let m = b.unicode_len();
    if n != m {
        return false;
    }
    let mut i: usize = 0;
    while i < n
        invariant
            n == a@.len(),
            m == b@.len(),
            n == m,
            i <= n,
            a@.subrange(0, i as int) == b@.subrange(0, i as int),
        decreases n - i,
    {
        if a.get_char(i) != b.get_char(i) {
            assert(a@[i as int] != b@[i as int]);
            return false;
        }
        assert(a@.subrange(0, i + 1) == a@.subrange(0, i as int).push(a@[i as int]));
        assert(b@.subrange(0, i + 1) == b@.subrange(0, i as int).push(b@[i as int]));
        i = i + 1;
    }
    assert(a@ == a@.subrange(0, n as int));
    assert(b@ == b@.subrange(0, n as int));
    true
}

impl Status {
    /// The name this status is written with.
    pub fn as_str(&self) -> (r: &'static str)
        ensures
            r@ == status_name(*self),
    {
        match self {
            Status::Queued => "queued",
            Status::Running => "running",
            Status::Failed => "failed",
            Status::TimedOut => "timed_out",
            Status::Completed => "completed",
            Status::Cancelled => "cancelled",
        }
    }

    /// Reads a status from its name; an unknown name gives `None`.
    pub fn parse(s: &str) -> (r: Option<Status>)
        ensures
            r == status_named(s@),
    {
        proof {
            reveal_strlit("queued");
            reveal_strlit("running");
            reveal_strlit("failed");
            reveal_strlit("timed_out");
            reveal_strlit("completed");
            reveal_strlit("cancelled");
        }
        if str_eq(s, "queued") {
            Some(Status::Queued)
        } else if str_eq(s, "running") {
            Some(Status::Running)
        } else if str_eq(s, "failed") {
            Some(Status::Failed)
        } else if str_eq(s, "timed_out") {
            Some(Status::TimedOut)
        } else if str_eq(s, "completed") {
            Some(Status::Completed)
        } else if str_eq(s, "cancelled") {
            Some(Status::Cancelled)
        } else {
            None
        }
    }
}

/// Every status reads back from its own name.
pub proof fn lemma_status_name_round_trip(s: Status)
    ensures
        status_named(status_name(s)) == Some(s),
{
    reveal_strlit("queued");
    reveal_strlit("running");
    reveal_strlit("failed");
    reveal_strlit("timed_out");
    reveal_strlit("completed");
    reveal_strlit("cancelled");
    assert("queued"@[0] == 'q');
    assert("running"@[0] == 'r');
    assert("failed"@[0] == 'f');
    assert("timed_out"@[0] == 't');
    assert("completed"@[1] == 'o');
    assert("cancelled"@[1] == 'a');
    assert("completed"@[0] == 'c');
    assert("cancelled"@[0] == 'c');
}

/// A queue's settings, which also stand as a job's effective settings.
#[derive(Clone, Debug)]
pub struct Settings {
    /// Time a worker has to finish a job after reserving it.
    pub timeout: Duration,
    /// Longest silence allowed between heartbeats; zero turns heartbeats off.
    pub heartbeat_timeout: Duration,
    /// Time a job lingers after it ended, before it is removed.
    pub expires_after: Duration,
    /// Most re-attempts a failed job gets.
    pub retries: u64,
    /// Delay before each re-attempt; the last one is reused past the end.
    pub retry_delays: Vec<Duration>,
}

/// A request to create a job, with optional overrides of the queue's settings.
#[derive(Clone, Debug)]
pub struct CreateRequest {
    /// The job's input, as JSON text.
    pub input: Option<String>,
    pub tags: Option<Vec<String>>,
    pub timeout: Option<Duration>,
    pub heartbeat_timeout: Option<Duration>,
    pub expires_after: Option<Duration>,
    pub retries: Option<u64>,
    pub retry_delays: Option<Vec<Duration>>,
}

pub open spec fn or_default<T>(o: Option<T>, d: T) -> T {
    match o {
        Some(v) => v,
        None => d,
    }
}

/// Settings `e` are those of queue `q` overridden field by field by request `r`.
pub open spec fn resolves_to(q: Settings, r: CreateRequest, e: Settings) -> bool {
    &&& e.timeout == or_default(r.timeout, q.timeout)
    &&& e.heartbeat_timeout == or_default(r.heartbeat_timeout, q.heartbeat_timeout)
    &&& e.expires_after == or_default(r.expires_after, q.expires_after)
    &&& e.retries == or_default(r.retries, q.retries)
    &&& e.retry_delays@ == match r.retry_delays {
        Some(d) => d@,
        None => q.retry_delays@,
    }
}

fn copy_durations(v: &Vec<Duration>) -> (r: Vec<Duration>)
    ensures
        r@ == v@,
{
    let mut r: Vec<Duration> = Vec::new();
    let mut i: usize = 0;
    while i < v.len()
        invariant
            i <= v.len(),
            r@ == v@.subrange(0, i as int),
        decreases v.len() - i,
    {
        r.push(v[i]);
        i = i + 1;
    }
    assert(v@ == v@.subrange(0, v@.len() as int));
    r
}

/// The effective settings of a job created on a queue with settings `q`.
pub fn resolve_settings(q: &Settings, r: &CreateRequest) -> (e: Settings)
    ensures
        resolves_to(*q, *r, e),
{
    let retry_delays = match &r.retry_delays {
        Some(d) => copy_durations(d),
        None => copy_durations(&q.retry_delays),
    };
    Settings {
        timeout: match r.timeout { Some(v) => v, None => q.timeout },
        heartbeat_timeout: match r.heartbeat_timeout { Some(v) => v, None => q.heartbeat_timeout },
        expires_after: match r.expires_after { Some(v) => v, None => q.expires_after },
        retries: match r.retries { Some(v) => v, None => q.retries },
        retry_delays,
    }
}

/// The delay before re-attempt number `attempted` (counting from zero): the
/// matching entry of `delays`, the last entry past its end, none for an empty list.
pub open spec fn retry_delay_of(delays: Seq<Duration>, attempted: u64) -> u64 {
    if delays.len() == 0 {
        0
    } else if attempted < delays.len() {
        delays[attempted as int].millis
    } else {
        delays[delays.len() - 1].millis
    }
}

pub fn retry_delay(s: &Settings, attempted: u64) -> (r: Duration)
    ensures
        r.millis == retry_delay_of(s.retry_delays@, attempted),
{
    let n = s.retry_delays.len();
    if n == 0 {
        Duration { millis: 0 }
    } else if (attempted as usize) < n && attempted < n as u64 {
        s.retry_delays[attempted as usize]
    } else {
        s.retry_delays[n - 1]
    }
}

/// Whether every character of `s` may stand in a queue name.
pub open spec fn is_name_char(c: char) -> bool {
    ('a' <= c && c <= 'z') || ('A' <= c && c <= 'Z') || ('0' <= c && c <= '9') || c == '_'
        || c == '.' || c == '-'
}

/// A queue name: one or more letters, digits, `_`, `.` or `-`.
pub open spec fn valid_queue_name(s: Seq<char>) -> bool {
    s.len() > 0 && forall|i: int| 0 <= i < s.len() ==> is_name_char(#[trigger] s[i])
}

pub fn is_valid_queue_name(s: &str) -> (r: bool)
    ensures
        r == valid_queue_name(s@),
{
    let n = s.unicode_len();
    if n == 0 {
        return false;
    }
    let mut i: usize = 0;
    while i < n
        invariant
            n == s@.len(),
            i <= n,
            forall|k: int| 0 <= k < i ==> is_name_char(#[trigger] s@[k]),
        decreases n - i,
    {
        let c = s.get_char(i);
        if !(('a' <= c && c <= 'z') || ('A' <= c && c <= 'Z') || ('0' <= c && c <= '9') || c == '_'
            || c == '.' || c == '-') {
            assert(!is_name_char(s@[i as int]));
            return false;
        }
        i = i + 1;
    }
    true
}

} // verus!