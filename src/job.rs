//! Job records and the views that contracts speak of.
use vstd::prelude::*;
use crate::models::{or_default, resolves_to, CreateRequest, Duration, Settings, Status};

verus! {

/// Where a job stands: each job is in exactly one of these at any instant.
#[derive(Clone, Copy, Debug, PartialEq, Eq, Structural)]
pub enum Place {
    /// On its queue's ready list; a lower ticket is served first.
    Waiting { ticket: u64 },
    /// Reserved by a worker, until `ends_at`.
    Running,
    /// Failed, waiting until `ends_at` for a re-attempt.
    Retrying,
    /// Ended, kept until `ends_at`.
    Ended,
}

/// A queue's settings as plain values.
pub struct SettingsView {
    pub timeout: Duration,
    pub heartbeat_timeout: Duration,
    pub expires_after: Duration,
    pub retries: u64,
    pub retry_delays: Seq<Duration>,
}

impl View for Settings {
    type V = SettingsView;

    open spec fn view(&self) -> SettingsView {
        SettingsView {
            timeout: self.timeout,
            heartbeat_timeout: self.heartbeat_timeout,
            expires_after: self.expires_after,
            retries: self.retries,
            retry_delays: self.retry_delays@,
        }
    }
}

pub open spec fn strs(v: Seq<String>) -> Seq<Seq<char>> {
    v.map_values(|s: String| s@)
}

pub open spec fn opt_str(o: Option<String>) -> Option<Seq<char>> {
    match o {
        Some(s) => Some(s@),
        None => None,
    }
}

/// A job.
#[derive(Debug)]
pub struct Job {
    pub id: u64,
    /// Name of the queue it was created on.
    pub queue: String,
    pub status: Status,
    pub place: Place,
    /// The deadline that the reconciliation pass of its place measures against.
    pub ends_at: u64,
    pub tags: Vec<String>,
    /// Effective settings, fixed at creation.
    pub settings: Settings,
    pub retries_attempted: u64,
    /// Whether its latest failure was a missed deadline rather than a report.
    pub timed_out: bool,
    pub created_at: u64,
    pub started_at: Option<u64>,
    pub ended_at: Option<u64>,
    pub last_heartbeat: Option<u64>,
    /// Input and output, as JSON text.
    pub input: Option<String>,
    pub output: Option<String>,
}

pub struct JobView {
    pub id: u64,
    pub queue: Seq<char>,
    pub status: Status,
    pub place: Place,
    pub ends_at: u64,
    pub tags: Seq<Seq<char>>,
    pub settings: SettingsView,
    pub retries_attempted: u64,
    pub timed_out: bool,
    pub created_at: u64,
    pub started_at: Option<u64>,
    pub ended_at: Option<u64>,
    pub last_heartbeat: Option<u64>,
    pub input: Option<Seq<char>>,
    pub output: Option<Seq<char>>,
}

impl View for Job {
    type V = JobView;

    open spec fn view(&self) -> JobView {
        JobView {
            id: self.id,
            queue: self.queue@,
            status: self.status,
            place: self.place,
            ends_at: self.ends_at,
            tags: strs(self.tags@),
            settings: self.settings@,
            retries_attempted: self.retries_attempted,
            timed_out: self.timed_out,
            created_at: self.created_at,
            started_at: self.started_at,
            ended_at: self.ended_at,
            last_heartbeat: self.last_heartbeat,
            input: opt_str(self.input),
            output: opt_str(self.output),
        }
    }
}

pub fn copy_strings(v: &Vec<String>) -> (r: Vec<String>)
    ensures
        strs(r@) == strs(v@),
{
    let mut r: Vec<String> = Vec::new();
    let mut i: usize = 0;
    while i < v.len()
        invariant
            i <= v.len(),
            r@.len() == i,
            forall|k: int| 0 <= k < i ==> (#[trigger] r@[k])@ == v@[k]@,
        decreases v.len() - i,
    {
        r.push(v[i].clone());
        i = i + 1;
    }
    assert(strs(r@) =~= strs(v@));
    r
}

pub fn copy_opt_string(o: &Option<String>) -> (r: Option<String>)
    ensures
        opt_str(r) == opt_str(*o),
{
    match o {
        Some(s) => Some(s.clone()),
        None => None,
    }
}

impl Settings {
    pub fn duplicate(&self) -> (r: Settings)
        ensures
            r@ == self@,
    {
        let mut d: Vec<Duration> = Vec::new();
        let mut i: usize = 0;
        while i < self.retry_delays.len()
            invariant
                i <= self.retry_delays.len(),
                d@ == self.retry_delays@.subrange(0, i as int),
            decreases self.retry_delays.len() - i,
        {
            d.push(self.retry_delays[i]);
            i = i + 1;
        }
        assert(d@ =~= self.retry_delays@);
        Settings {
            timeout: self.timeout,
            heartbeat_timeout: self.heartbeat_timeout,
            expires_after: self.expires_after,
            retries: self.retries,
            retry_delays: d,
        }
    }
}

/// The status a job is reported with: a failure that came from a missed
/// deadline shows as timed out.
pub open spec fn reported_status(j: JobView) -> Status {
    if j.timed_out && j.status == Status::Failed {
        Status::TimedOut
    } else {
        j.status
    }
}

impl Job {
    pub fn reported_status(&self) -> (r: Status)
        ensures
            r == reported_status(self@),
    {
        if self.timed_out && self.status == Status::Failed {
            Status::TimedOut
        } else {
            self.status
        }
    }

    pub fn duplicate(&self) -> (r: Job)
        ensures
            r@ == self@,
    {
        Job {
            id: self.id,
            queue: self.queue.clone(),
            status: self.status,
            place: self.place,
            ends_at: self.ends_at,
            tags: copy_strings(&self.tags),
            settings: self.settings.duplicate(),
            retries_attempted: self.retries_attempted,
            timed_out: self.timed_out,
            created_at: self.created_at,
            started_at: self.started_at,
            ended_at: self.ended_at,
            last_heartbeat: self.last_heartbeat,
            input: copy_opt_string(&self.input),
            output: copy_opt_string(&self.output),
        }
    }
}

/// The effective settings of a job created with request `r` on a queue with settings `q`.
pub open spec fn resolved_view(q: SettingsView, r: CreateRequest) -> SettingsView {
    SettingsView {
        timeout: or_default(r.timeout, q.timeout),
        heartbeat_timeout: or_default(r.heartbeat_timeout, q.heartbeat_timeout),
        expires_after: or_default(r.expires_after, q.expires_after),
        retries: or_default(r.retries, q.retries),
        retry_delays: match r.retry_delays {
            Some(d) => d@,
            None => q.retry_delays,
        },
    }
}

pub proof fn lemma_resolved_view(q: Settings, r: CreateRequest, e: Settings)
    requires
        resolves_to(q, r, e),
    ensures
        e@ == resolved_view(q@, r),
{
}

/// `s` without repeats, each kept at its first occurrence.
pub open spec fn dedup(s: Seq<Seq<char>>) -> Seq<Seq<char>>
    decreases s.len(),
{
    if s.len() == 0 {
        s
    } else {
        let d = dedup(s.drop_last());
        if d.contains(s.last()) {
            d
        } else {
            d.push(s.last())
        }
    }
}

/// The tags a request asks for, in order, without repeats.
pub open spec fn requested_tags(r: CreateRequest) -> Seq<Seq<char>> {
    match r.tags {
        Some(t) => dedup(strs(t@)),
        None => Seq::empty(),
    }
}

fn contains_string(v: &Vec<String>, t: &String) -> (r: bool)
    ensures
        r == strs(v@).contains(t@),
{
    let mut i: usize = 0;
    while i < v.len()
        invariant
            i <= v.len(),
            forall|k: int| 0 <= k < i ==> (#[trigger] v@[k])@ != t@,
        decreases v.len() - i,
    {
        if crate::models::str_eq(v[i].as_str(), t.as_str()) {
            assert(strs(v@)[i as int] == t@);
            return true;
        }
        i = i + 1;
    }
    assert(!strs(v@).contains(t@)) by {
        if strs(v@).contains(t@) {
            let k = choose|k: int| 0 <= k < strs(v@).len() && strs(v@)[k] == t@;
            assert(v@[k]@ == t@);
        }
    }
    false
}

/// The tags of request `r`, with repeats dropped.
pub fn tags_of(r: &CreateRequest) -> (out: Vec<String>)
    ensures
        strs(out@) == requested_tags(*r),
{
    let mut out: Vec<String> = Vec::new();
    match &r.tags {
        None => {
            assert(strs(out@) =~= Seq::<Seq<char>>::empty());
        },
        Some(t) => {
            let mut i: usize = 0;
            while i < t.len()
                invariant
                    i <= t.len(),
                    strs(out@) == dedup(strs(t@).subrange(0, i as int)),
                decreases t.len() - i,
            {
                let ghost before = out@;
                assert(strs(t@).subrange(0, i + 1).drop_last() =~= strs(t@).subrange(0, i as int));
                if !contains_string(&out, &t[i]) {
                    out.push(t[i].clone());
                    assert(strs(out@) =~= strs(before).push(t@[i as int]@));
                }
                i = i + 1;
            }
            assert(strs(t@).subrange(0, t@.len() as int) =~= strs(t@));
        },
    }
    out
}

} // verus!