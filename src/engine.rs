//! The job-state engine: queues, jobs, and every transition between the places
//! a job can stand in. Each operation is one atomic step on the engine.
use vstd::prelude::*;
use crate::models::{
    after, resolve_settings, retry_delay, retry_delay_of, sat_add, str_eq,
    is_valid_queue_name, valid_queue_name, CreateRequest, Settings, Status,
};
use crate::job::{
    reported_status, copy_opt_string, lemma_resolved_view, opt_str, requested_tags, resolved_view, strs, tags_of,
    Job, JobView, Place, SettingsView,
};

verus! {

/// The kinds of failure an engine operation reports.
#[derive(Clone, Copy, Debug, PartialEq, Eq, Structural)]
pub enum OcyError {
    NoSuchQueue,
    NoSuchJob,
    /// A value failed validation, or a transition is not allowed.
    BadRequest,
    Conflict,
    RedisConnection,
    /// Something unexpected, such as an exhausted counter.
    Internal,
}

/// A queue: its name and settings.
pub struct Queue {
    pub name: String,
    pub settings: Settings,
}

pub struct QueueView {
    pub name: Seq<char>,
    pub settings: SettingsView,
}

pub struct EngineView {
    pub queues: Seq<QueueView>,
    /// The job with id `i + 1` at index `i`; `None` once it was deleted.
    pub jobs: Seq<Option<JobView>>,
    /// The ticket the next job put on a ready list gets.
    pub next_ticket: u64,
}

/// All queues and jobs.
pub struct Engine {
    queues: Vec<Queue>,
    jobs: Vec<Option<Job>>,
    next_ticket: u64,
}

pub open spec fn opt_job(o: Option<Job>) -> Option<JobView> {
    match o {
        Some(j) => Some(j@),
        None => None,
    }
}

pub open spec fn has_queue(qs: Seq<QueueView>, name: Seq<char>) -> bool {
    exists|i: int| 0 <= i < qs.len() && (#[trigger] qs[i]).name == name
}

/// Index of the first queue named `name`.
pub open spec fn is_first_named(qs: Seq<QueueView>, name: Seq<char>, i: int) -> bool {
    0 <= i < qs.len() && qs[i].name == name && forall|k: int|
        0 <= k < i ==> (#[trigger] qs[k]).name != name
}

/// The job with id `id` in `v`, if it exists.
pub open spec fn job_of(v: EngineView, id: u64) -> Option<JobView> {
    if 1 <= id && id <= v.jobs.len() {
        v.jobs[id - 1]
    } else {
        None
    }
}

pub open spec fn is_waiting_on(j: JobView, name: Seq<char>) -> bool {
    j.place is Waiting && j.queue == name
}

pub open spec fn ticket(j: JobView) -> u64 {
    match j.place {
        Place::Waiting { ticket } => ticket,
        _ => 0,
    }
}

/// A job's place agrees with its status and bookkeeping.
pub open spec fn job_ok(j: JobView, i: int, next_ticket: u64) -> bool {
    &&& j.id == i + 1
    &&& j.retries_attempted <= j.settings.retries
    &&& (j.place is Waiting <==> j.status == Status::Queued)
    &&& (j.place is Running <==> j.status == Status::Running)
    &&& (j.place is Retrying ==> j.status == Status::Failed && j.retries_attempted < j.settings.retries)
    &&& (j.place is Waiting ==> ticket(j) < next_ticket)
}

impl View for Queue {
    type V = QueueView;

    open spec fn view(&self) -> QueueView {
        QueueView { name: self.name@, settings: self.settings@ }
    }
}

impl View for Engine {
    type V = EngineView;

    closed spec fn view(&self) -> EngineView {
        EngineView {
            queues: self.queues@.map_values(|q: Queue| q@),
            jobs: self.jobs@.map_values(|o: Option<Job>| opt_job(o)),
            next_ticket: self.next_ticket,
        }
    }
}

/// The engine's invariant: queue names are distinct, ids match positions, every job's place agrees with
/// its status, waiting tickets are distinct and below the next ticket, and ids
/// fit in 64 bits.
/// No two queues share a name.
pub open spec fn names_distinct(qs: Seq<QueueView>) -> bool {
    forall|i: int, k: int| 0 <= i < qs.len() && 0 <= k < qs.len() && i != k ==> (#[trigger] qs[i]).name != (#[trigger] qs[k]).name
}

pub open spec fn engine_ok(v: EngineView) -> bool {
    &&& names_distinct(v.queues)
    &&& v.jobs.len() < u64::MAX
    &&& forall|i: int| 0 <= i < v.jobs.len() && (#[trigger] v.jobs[i]) is Some ==> job_ok(
        v.jobs[i].unwrap(),
        i,
        v.next_ticket,
    )
    &&& forall|i: int, k: int|
        0 <= i < v.jobs.len() && 0 <= k < v.jobs.len() && i != k && (#[trigger] v.jobs[i]) is Some
            && (#[trigger] v.jobs[k]) is Some && v.jobs[i].unwrap().place is Waiting
            && v.jobs[k].unwrap().place is Waiting ==> ticket(v.jobs[i].unwrap()) != ticket(
            v.jobs[k].unwrap(),
        )
}

/// The deadline of a running job: the last heartbeat plus the heartbeat timeout
/// where heartbeats are on, else the start plus the timeout.
pub open spec fn running_deadline(s: SettingsView, started: u64, heartbeat: u64) -> u64 {
    if s.heartbeat_timeout.millis > 0 {
        sat_add(heartbeat, s.heartbeat_timeout.millis)
    } else {
        sat_add(started, s.timeout.millis)
    }
}

/// `j` reserved by a worker at `now`.
pub open spec fn reserved(j: JobView, now: u64) -> JobView {
    JobView {
        status: Status::Running,
        place: Place::Running,
        started_at: Some(now),
        last_heartbeat: Some(now),
        ends_at: running_deadline(j.settings, now, now),
        ..j
    }
}

/// `n` is `o` after `create_or_update_queue(name, s)` returned `r`.
pub open spec fn upserted(
    o: EngineView,
    n: EngineView,
    name: Seq<char>,
    s: SettingsView,
    r: Result<bool, OcyError>,
) -> bool {
    &&& n.jobs == o.jobs
    &&& n.next_ticket == o.next_ticket
    &&& (r == Err::<bool, OcyError>(OcyError::BadRequest) <==> !valid_queue_name(name))
    &&& (r == Ok::<bool, OcyError>(true) <==> valid_queue_name(name) && !has_queue(o.queues, name))
    &&& (r is Err ==> n == o && r == Err::<bool, OcyError>(OcyError::BadRequest))
    &&& (r == Ok::<bool, OcyError>(true) ==> n.queues == o.queues.push(
        QueueView { name, settings: s },
    ))
    &&& (r == Ok::<bool, OcyError>(false) ==> exists|i: int|
        is_first_named(o.queues, name, i) && n.queues == o.queues.update(
            i,
            QueueView { name, settings: s },
        ))
}

/// Creating or updating a queue a second time with the same settings changes
/// nothing and reports an update, whatever the first call reported.
pub proof fn lemma_upsert_idempotent(
    s0: EngineView,
    s1: EngineView,
    s2: EngineView,
    name: Seq<char>,
    s: SettingsView,
    r1: Result<bool, OcyError>,
    r2: Result<bool, OcyError>,
)
    requires
        upserted(s0, s1, name, s, r1),
        upserted(s1, s2, name, s, r2),
    ensures
        r1 is Ok ==> r2 == Ok::<bool, OcyError>(false) && s2 == s1,
        r1 is Err ==> r2 is Err && s2 == s1,
{
    let qv = QueueView { name, settings: s };
    if r1 is Ok {
        assert(valid_queue_name(name));
        assert(!(r2 is Err));
        if r1 == Ok::<bool, OcyError>(true) {
            let last = s0.queues.len() as int;
            assert(s1.queues[last] == qv);
            assert(has_queue(s1.queues, name));
            assert(r2 != Ok::<bool, OcyError>(true));
            match r2 {
                Ok(b) => assert(!b),
                Err(_) => {},
            }
            let j = choose|j: int| is_first_named(s1.queues, name, j) && s2.queues
                == s1.queues.update(j, qv);
            if j < last {
                assert(s0.queues[j] == s1.queues[j]);
                assert(has_queue(s0.queues, name));
            }
            assert(s2.queues =~= s1.queues);
        } else {
            match r1 {
                Ok(b) => assert(!b),
                Err(_) => {},
            }
            let i = choose|i: int| is_first_named(s0.queues, name, i) && s1.queues
                == s0.queues.update(i, qv);
            assert(s1.queues[i] == qv);
            assert(has_queue(s1.queues, name));
            assert(r2 != Ok::<bool, OcyError>(true));
            match r2 {
                Ok(b) => assert(!b),
                Err(_) => {},
            }
            let j = choose|j: int| is_first_named(s1.queues, name, j) && s2.queues
                == s1.queues.update(j, qv);
            assert(j == i) by {
                if j < i {
                    assert(s0.queues[j] == s1.queues[j]);
                }
                if i < j {
                    assert(s1.queues[i].name == name);
                }
            }
            assert(s2.queues =~= s1.queues);
        }
    }
}

/// The job that `create_job` makes from request `r` on a queue with settings `q`.
pub open spec fn new_job(
    o: EngineView,
    name: Seq<char>,
    q: SettingsView,
    r: CreateRequest,
    now: u64,
) -> JobView {
    JobView {
        id: (o.jobs.len() + 1) as u64,
        queue: name,
        status: Status::Queued,
        place: Place::Waiting { ticket: o.next_ticket },
        ends_at: 0,
        tags: requested_tags(r),
        settings: resolved_view(q, r),
        retries_attempted: 0,
        timed_out: false,
        created_at: now,
        started_at: None,
        ended_at: None,
        last_heartbeat: None,
        input: opt_str(r.input),
        output: None,
    }
}

/// `n` is `o` after `create_job(name, r, now)` returned `res`.
pub open spec fn created(
    o: EngineView,
    n: EngineView,
    name: Seq<char>,
    r: CreateRequest,
    now: u64,
    res: Result<u64, OcyError>,
) -> bool {
    &&& n.queues == o.queues
    &&& (res == Err::<u64, OcyError>(OcyError::NoSuchQueue) <==> !has_queue(o.queues, name))
    &&& (res == Err::<u64, OcyError>(OcyError::Internal) <==> has_queue(o.queues, name) && (
    o.jobs.len() + 2 >= u64::MAX || o.next_ticket == u64::MAX))
    &&& (res is Err ==> n == o)
    &&& (res is Err ==> res == Err::<u64, OcyError>(OcyError::NoSuchQueue) || res == Err::<
        u64,
        OcyError,
    >(OcyError::Internal))
    &&& (res matches Ok(id) ==> id == o.jobs.len() + 1 && n.next_ticket == o.next_ticket + 1
        && exists|i: int|
        is_first_named(o.queues, name, i) && n.jobs == o.jobs.push(
            Some(new_job(o, name, o.queues[i].settings, r, now)),
        ))
}

/// `n` is `o` after `next_queued_job(name, now)` returned `res`.
pub open spec fn reserved_next(
    o: EngineView,
    n: EngineView,
    name: Seq<char>,
    now: u64,
    res: Result<Option<JobView>, OcyError>,
) -> bool {
    &&& n.queues == o.queues
    &&& n.next_ticket == o.next_ticket
    &&& (res is Err <==> !has_queue(o.queues, name))
    &&& (res is Err ==> res == Err::<Option<JobView>, OcyError>(OcyError::NoSuchQueue) && n == o)
    &&& (res == Ok::<Option<JobView>, OcyError>(None) <==> has_queue(o.queues, name) && forall|
        k: int,
    |
        0 <= k < o.jobs.len() && (#[trigger] o.jobs[k]) is Some ==> !is_waiting_on(
            o.jobs[k].unwrap(),
            name,
        ))
    &&& (res == Ok::<Option<JobView>, OcyError>(None) ==> n == o)
    &&& (res matches Ok(Some(j)) ==> {
        let i = j.id - 1;
        &&& 0 <= i < o.jobs.len()
        &&& o.jobs[i] is Some
        &&& is_waiting_on(o.jobs[i].unwrap(), name)
        &&& forall|k: int|
            0 <= k < o.jobs.len() && (#[trigger] o.jobs[k]) is Some && is_waiting_on(
                o.jobs[k].unwrap(),
                name,
            ) ==> ticket(o.jobs[i].unwrap()) <= ticket(o.jobs[k].unwrap())
        &&& j == reserved(o.jobs[i].unwrap(), now)
        &&& n.jobs == o.jobs.update(i, Some(j))
    })
}

/// Of two jobs created one after the other on a queue, the later is never
/// reserved while the earlier still waits: the ready list is served in order.
#[verifier::rlimit(30)]
pub proof fn lemma_fifo(
    s0: EngineView,
    s1: EngineView,
    s2: EngineView,
    s3: EngineView,
    name: Seq<char>,
    r1: CreateRequest,
    r2: CreateRequest,
    t1: u64,
    t2: u64,
    t3: u64,
    a: u64,
    b: u64,
    j: JobView,
)
    requires
        engine_ok(s0),
        created(s0, s1, name, r1, t1, Ok(a)),
        created(s1, s2, name, r2, t2, Ok(b)),
        reserved_next(s2, s3, name, t3, Ok(Some(j))),
    ensures
        j.id != b,
{
    let i1 = choose|i: int| is_first_named(s0.queues, name, i) && s1.jobs == s0.jobs.push(
        Some(new_job(s0, name, s0.queues[i].settings, r1, t1)),
    );
    let i2 = choose|i: int| is_first_named(s1.queues, name, i) && s2.jobs == s1.jobs.push(
        Some(new_job(s1, name, s1.queues[i].settings, r2, t2)),
    );
    let ka = (a - 1) as int;
    assert(s2.jobs[ka] == s1.jobs[ka]);
    assert(s2.jobs[ka] is Some);
    assert(is_waiting_on(s2.jobs[ka].unwrap(), name));
    let kb = (b - 1) as int;
    assert(ticket(s2.jobs[ka].unwrap()) == s0.next_ticket);
    assert(ticket(s2.jobs[kb].unwrap()) == s0.next_ticket + 1);
}

/// A job that one reservation returned cannot be returned by the next one: it
/// no longer waits on any ready list.
pub proof fn lemma_single_reservation(
    s0: EngineView,
    s1: EngineView,
    s2: EngineView,
    q1: Seq<char>,
    q2: Seq<char>,
    t1: u64,
    t2: u64,
    j1: JobView,
    j2: JobView,
)
    requires
        reserved_next(s0, s1, q1, t1, Ok(Some(j1))),
        reserved_next(s1, s2, q2, t2, Ok(Some(j2))),
    ensures
        j1.id != j2.id,
        j1.status == Status::Running,
{
}

/// `j` after a heartbeat at `now`.
pub open spec fn beaten(j: JobView, now: u64) -> JobView {
    JobView {
        last_heartbeat: Some(now),
        ends_at: running_deadline(j.settings, crate::models::or_default(j.started_at, now), now),
        ..j
    }
}

/// `j` ended with status `st` at `now`, kept until it expires.
pub open spec fn ended(j: JobView, st: Status, now: u64) -> JobView {
    JobView {
        status: st,
        place: Place::Ended,
        ended_at: Some(now),
        ends_at: sat_add(now, j.settings.expires_after.millis),
        ..j
    }
}

/// `j` failed at `now`: it waits for a re-attempt while it has re-attempts left,
/// and ends for good otherwise.
pub open spec fn failed(j: JobView, now: u64) -> JobView {
    let j = JobView { timed_out: false, ..j };
    if j.retries_attempted < j.settings.retries {
        JobView {
            status: Status::Failed,
            place: Place::Retrying,
            ended_at: Some(now),
            ends_at: sat_add(now, retry_delay_of(j.settings.retry_delays, j.retries_attempted)),
            ..j
        }
    } else {
        ended(j, Status::Failed, now)
    }
}

/// `j` failed at `now` because its deadline passed.
pub open spec fn timed_out(j: JobView, now: u64) -> JobView {
    JobView { timed_out: true, ..failed(j, now) }
}

/// A running job may complete, be cancelled or fail; a queued one may be cancelled.
pub open spec fn allowed(from: Status, to: Status) -> bool {
    (from == Status::Running && (to == Status::Completed || to == Status::Cancelled || to
        == Status::Failed)) || (from == Status::Queued && to == Status::Cancelled)
}

pub open spec fn moved_to(j: JobView, st: Status, now: u64) -> JobView {
    if st == Status::Failed {
        failed(j, now)
    } else {
        ended(j, st, now)
    }
}

/// Each job's re-attempts stay within its retries, and a failure ends a job for
/// good exactly when no re-attempt is left.
pub proof fn lemma_retry_bound(v: EngineView, id: u64, now: u64)
    requires
        engine_ok(v),
        job_of(v, id) is Some,
    ensures
        job_of(v, id).unwrap().retries_attempted <= job_of(v, id).unwrap().settings.retries,
        failed(job_of(v, id).unwrap(), now).place is Ended <==> job_of(v, id).unwrap().retries_attempted
            == job_of(v, id).unwrap().settings.retries,
        failed(job_of(v, id).unwrap(), now).status == Status::Failed,
{
    assert(job_ok(v.jobs[id - 1].unwrap(), id - 1, v.next_ticket));
}

/// `n` is `o` with the job of id `id` replaced by `j`.
pub open spec fn job_replaced(o: EngineView, n: EngineView, id: u64, j: JobView) -> bool {
    &&& 1 <= id <= o.jobs.len()
    &&& n.queues == o.queues
    &&& n.next_ticket == o.next_ticket
    &&& n.jobs == o.jobs.update(id - 1, Some(j))
}

/// Ids in ascending order, each of a job that holds tag `t`, and all of them.
pub open spec fn tagged_ids(v: EngineView, t: Seq<char>, r: Seq<u64>) -> bool {
    &&& forall|a: int, b: int| 0 <= a < b < r.len() ==> r[a] < r[b]
    &&& forall|id: u64|
        r.contains(id) <==> (job_of(v, id) is Some && job_of(v, id).unwrap().tags.contains(t))
}

fn contains_str(v: &Vec<String>, t: &str) -> (r: bool)
    ensures
        r == strs(v@).contains(t@),
{
    let mut i: usize = 0;
    while i < v.len()
        invariant
            i <= v.len(),
            forall|k: int| 0 <= k < i ==> (#[trigger] v@[k])@ != t@,
        decreases v.len() - i,
    {
        if str_eq(v[i].as_str(), t) {
            assert(strs(v@)[i as int] == t@);
            return true;
        }
        i = i + 1;
    }
    assert(!strs(v@).contains(t@)) by {
        if strs(v@).contains(t@) {
            let k = choose|k: int| 0 <= k < strs(v@).len() && strs(v@)[k] == t@;
            assert(v@[k]@ == t@);
        }
    }
    false
}

/// How many entries of `s` satisfy `f`.
pub open spec fn count_where(s: Seq<Option<JobView>>, f: spec_fn(Option<JobView>) -> bool) -> nat
    decreases s.len(),
{
    if s.len() == 0 {
        0
    } else {
        count_where(s.drop_last(), f) + if f(s.last()) { 1nat } else { 0nat }
    }
}

pub proof fn lemma_count_le(s: Seq<Option<JobView>>, f: spec_fn(Option<JobView>) -> bool)
    ensures
        count_where(s, f) <= s.len(),
    decreases s.len(),
{
    if s.len() > 0 {
        lemma_count_le(s.drop_last(), f);
    }
}

/// A running job whose deadline has passed at `now`.
pub open spec fn overdue(o: Option<JobView>, now: u64) -> bool {
    o is Some && o.unwrap().place is Running && o.unwrap().ends_at <= now
}

/// A failed job whose re-attempt is due at `now`.
pub open spec fn retry_due(o: Option<JobView>, now: u64) -> bool {
    o is Some && o.unwrap().place is Retrying && o.unwrap().ends_at <= now
}

/// An ended job that has expired at `now` and whose reported status is one of `sts`.
pub open spec fn expired(o: Option<JobView>, now: u64, sts: Seq<Status>) -> bool {
    o is Some && o.unwrap().place is Ended && o.unwrap().ends_at <= now && sts.contains(
        reported_status(o.unwrap()),
    )
}

/// `j` back on its queue's ready list with ticket `t`, one re-attempt more.
pub open spec fn requeued(j: JobView, t: u64) -> JobView {
    JobView {
        status: Status::Queued,
        place: Place::Waiting { ticket: t },
        output: None,
        retries_attempted: (j.retries_attempted + 1) as u64,
        ..j
    }
}

/// What the retry pass made of one job: a due job goes back on its queue with
/// a fresh ticket in `lo..hi` (or stays as it was, only once tickets ran out), or
/// ends as failed where its queue is gone; any other job is unchanged.
pub open spec fn retried(
    o: Option<JobView>,
    n: Option<JobView>,
    qs: Seq<QueueView>,
    now: u64,
    lo: u64,
    hi: u64,
) -> bool {
    if !retry_due(o, now) {
        n == o
    } else if !has_queue(qs, o.unwrap().queue) {
        n == Some(ended(o.unwrap(), Status::Failed, now))
    } else {
        (n == o && hi == u64::MAX) || (n == Some(requeued(o.unwrap(), ticket(n.unwrap()))) && lo
            <= ticket(n.unwrap()) < hi)
    }
}

fn contains_status(v: &Vec<Status>, st: Status) -> (r: bool)
    ensures
        r == v@.contains(st),
{
    let mut i: usize = 0;
    while i < v.len()
        invariant
            i <= v.len(),
            forall|k: int| 0 <= k < i ==> v@[k] != st,
        decreases v.len() - i,
    {
        if v[i] == st {
            return true;
        }
        i = i + 1;
    }
    false
}

/// Ids of the jobs waiting on queue `name`, all of them and each once, in the
/// order they will be served (ascending ticket).
pub open spec fn waiting_ids(v: EngineView, name: Seq<char>, r: Seq<u64>) -> bool {
    &&& forall|a: int|
        0 <= a < r.len() ==> job_of(v, #[trigger] r[a]) is Some && is_waiting_on(
            job_of(v, r[a]).unwrap(),
            name,
        )
    &&& forall|a: int, b: int|
        0 <= a < b < r.len() ==> ticket(job_of(v, #[trigger] r[a]).unwrap()) < ticket(
            job_of(v, #[trigger] r[b]).unwrap(),
        )
    &&& forall|id: u64|
        job_of(v, id) is Some && is_waiting_on(job_of(v, id).unwrap(), name) ==> r.contains(id)
}

/// Every ended job that is still there is still ended, with the same deadline:
/// an ended job's expiry never moves.
pub open spec fn ended_kept(o: EngineView, n: EngineView) -> bool {
    forall|id: u64|
        job_of(o, id) is Some && job_of(o, id).unwrap().place is Ended && (#[trigger] job_of(n, id)) is Some
            ==> job_of(n, id).unwrap().place is Ended && job_of(n, id).unwrap().ends_at == job_of(
            o,
            id,
        ).unwrap().ends_at
}

/// Once a job is deleted, no tag lists it any more.
pub proof fn lemma_deleted_job_untagged(o: EngineView, n: EngineView, id: u64, t: Seq<char>, r: Seq<u64>)
    requires
        job_of(o, id) is Some,
        n.jobs == o.jobs.update(id - 1, None),
        tagged_ids(n, t, r),
    ensures
        !r.contains(id),
{
}

impl Engine {
    pub closed spec fn wf(&self) -> bool {
        engine_ok(self@)
    }

    /// A well-formed engine meets the invariant that the laws speak of.
    pub proof fn lemma_wf(&self)
        requires
            self.wf(),
        ensures
            engine_ok(self@),
    {
    }

    /// An engine with no queues and no jobs.
    pub fn new() -> (r: Engine)
        ensures
            r.wf(),
            r@.queues.len() == 0,
            r@.jobs.len() == 0,
    {
        let r = Engine { queues: Vec::new(), jobs: Vec::new(), next_ticket: 0 };
        assert(r@.jobs =~= Seq::empty());
        r
    }

    fn find_queue(&self, name: &str) -> (r: Option<usize>)
        ensures
            r matches Some(i) ==> is_first_named(self@.queues, name@, i as int),
            r is None ==> !has_queue(self@.queues, name@),
    {
        let mut i: usize = 0;
        while i < self.queues.len()
            invariant
                i <= self.queues.len(),
                self@.queues.len() == self.queues@.len(),
                forall|k: int| 0 <= k < i ==> (#[trigger] self@.queues[k]).name != name@,
            decreases self.queues.len() - i,
        {
            assert(self@.queues[i as int] == self.queues@[i as int]@);
            if str_eq(self.queues[i].name.as_str(), name) {
                return Some(i);
            }
            i = i + 1;
        }
        None
    }
    /// Creates queue `name`, or replaces its settings where it exists.
    /// Returns `Ok(true)` when it was created and `Ok(false)` when it was updated.
    pub fn create_or_update_queue(&mut self, name: &str, settings: Settings) -> (r: Result<
        bool,
        OcyError,
    >)
        requires
            old(self).wf(),
        ensures
            final(self).wf(),
            ended_kept(old(self)@, final(self)@),
            upserted(old(self)@, final(self)@, name@, settings@, r),
    {
        if !is_valid_queue_name(name) {
            return Err(OcyError::BadRequest);
        }
        match self.find_queue(name) {
            Some(i) => {
                let q = Queue { name: String::from_str(name), settings };
                self.queues.set(i, q);
                assert(self@.queues =~= old(self)@.queues.update(
                    i as int,
                    QueueView { name: name@, settings: settings@ },
                ));
                Ok(false)
            },
            None => {
                self.queues.push(Queue { name: String::from_str(name), settings });
                assert(self@.queues =~= old(self)@.queues.push(
                    QueueView { name: name@, settings: settings@ },
                ));
                Ok(true)
            },
        }
    }
    fn job_at(&self, i: usize) -> (r: Job)
        requires
            i < self@.jobs.len(),
            self@.jobs[i as int] is Some,
        ensures
            r@ == self@.jobs[i as int].unwrap(),
    {
        assert(self@.jobs[i as int] == opt_job(self.jobs@[i as int]));
        self.jobs[i].as_ref().unwrap().duplicate()
    }

    fn put_job(&mut self, i: usize, j: Job)
        requires
            i < old(self)@.jobs.len(),
        ensures
            final(self)@.jobs == old(self)@.jobs.update(i as int, Some(j@)),
            final(self)@.queues == old(self)@.queues,
            final(self)@.next_ticket == old(self)@.next_ticket,
    {
        self.jobs.set(i, Some(j));
        assert(self@.jobs =~= old(self)@.jobs.update(i as int, Some(j@)));
    }

    /// Adds a job made from request `req` to the end of queue `name`'s ready list.
    /// Returns the new job's id.
    pub fn create_job(&mut self, name: &str, req: &CreateRequest, now: u64) -> (r: Result<u64, OcyError>)
        requires
            old(self).wf(),
        ensures
            final(self).wf(),
            ended_kept(old(self)@, final(self)@),
            created(old(self)@, final(self)@, name@, *req, now, r),
    {
        let qi = match self.find_queue(name) {
            Some(qi) => qi,
            None => return Err(OcyError::NoSuchQueue),
        };
        assert(has_queue(self@.queues, name@));
        if self.jobs.len() as u64 >= u64::MAX - 2 || self.next_ticket == u64::MAX {
            return Err(OcyError::Internal);
        }
        let settings = resolve_settings(&self.queues[qi].settings, req);
        proof {
            lemma_resolved_view(self.queues@[qi as int].settings, *req, settings);
            assert(self@.queues[qi as int] == self.queues@[qi as int]@);
        }
        let id = self.jobs.len() as u64 + 1;
        let job = Job {
            id,
            queue: String::from_str(name),
            status: Status::Queued,
            place: Place::Waiting { ticket: self.next_ticket },
            ends_at: 0,
            tags: tags_of(req),
            settings,
            retries_attempted: 0,
            timed_out: false,
            created_at: now,
            started_at: None,
            ended_at: None,
            last_heartbeat: None,
            input: copy_opt_string(&req.input),
            output: None,
        };
        let ghost o = self@;
        assert(job@ == new_job(o, name@, o.queues[qi as int].settings, *req, now));
        self.jobs.push(Some(job));
        self.next_ticket = self.next_ticket + 1;
        assert(self@.jobs =~= o.jobs.push(Some(job@)));
        assert(self@.queues =~= o.queues);
        Ok(id)
    }

    /// Reserves the job that has waited longest on queue `name`, if any.
    pub fn next_queued_job(&mut self, name: &str, now: u64) -> (r: Result<Option<Job>, OcyError>)
        requires
            old(self).wf(),
        ensures
            final(self).wf(),
            ended_kept(old(self)@, final(self)@),
            reserved_next(
                old(self)@,
                final(self)@,
                name@,
                now,
                match r {
                    Ok(o) => Ok(opt_job(o)),
                    Err(e) => Err(e),
                },
            ),
            r matches Ok(Some(j)) ==> j.retries_attempted <= j.settings.retries && j.status
                == Status::Running,
    {
        if self.find_queue(name).is_none() {
            return Err(OcyError::NoSuchQueue);
        }
        let ghost o = self@;
        let mut best: Option<usize> = None;
        let mut best_ticket: u64 = 0;
        let mut i: usize = 0;
        while i < self.jobs.len()
            invariant
                self@ == o,
                i <= self.jobs@.len(),
                o.jobs.len() == self.jobs@.len(),
                best matches Some(b) ==> b < i && o.jobs[b as int] is Some && is_waiting_on(
                    o.jobs[b as int].unwrap(),
                    name@,
                ) && ticket(o.jobs[b as int].unwrap()) == best_ticket,
                forall|k: int|
                    0 <= k < i && (#[trigger] o.jobs[k]) is Some && is_waiting_on(
                        o.jobs[k].unwrap(),
                        name@,
                    ) ==> best is Some && best_ticket <= ticket(o.jobs[k].unwrap()),
            decreases self.jobs@.len() - i,
        {
            assert(o.jobs[i as int] == opt_job(self.jobs@[i as int]));
            match &self.jobs[i] {
                Some(j) => {
                    match j.place {
                        Place::Waiting { ticket: t } => {
                            if str_eq(j.queue.as_str(), name) {
                                if best.is_none() || t < best_ticket {
                                    best = Some(i);
                                    best_ticket = t;
                                }
                            }
                        },
                        _ => {},
                    }
                },
                None => {},
            }
            i = i + 1;
        }
        match best {
            None => Ok(None),
            Some(b) => {
                let mut j = self.job_at(b);
                let ghost before = j@;
                proof {
                    assert(job_ok(before, b as int, o.next_ticket));
                }
                j.status = Status::Running;
                j.place = Place::Running;
                j.started_at = Some(now);
                j.last_heartbeat = Some(now);
                j.ends_at = if j.settings.heartbeat_timeout.millis > 0 {
                    after(now, j.settings.heartbeat_timeout)
                } else {
                    after(now, j.settings.timeout)
                };
                assert(j@ == reserved(before, now));
                let out = j.duplicate();
                self.put_job(b, j);
                proof {
                    let n = self@;
                    assert forall|x: int|
                        0 <= x < n.jobs.len() && (#[trigger] n.jobs[x]) is Some implies job_ok(
                        n.jobs[x].unwrap(),
                        x,
                        n.next_ticket,
                    ) by {
                        if x != b {
                            assert(o.jobs[x] == n.jobs[x]);
                        }
                    }
                    assert forall|x: int, y: int|
                        0 <= x < n.jobs.len() && 0 <= y < n.jobs.len() && x != y
                            && (#[trigger] n.jobs[x]) is Some && (#[trigger] n.jobs[y]) is Some
                            && n.jobs[x].unwrap().place is Waiting
                            && n.jobs[y].unwrap().place is Waiting implies ticket(
                        n.jobs[x].unwrap(),
                    ) != ticket(n.jobs[y].unwrap()) by {
                        assert(o.jobs[x] == n.jobs[x]);
                        assert(o.jobs[y] == n.jobs[y]);
                    }
                }
                Ok(Some(out))
            },
        }
    }
    fn slot_of(&self, id: u64) -> (r: Option<usize>)
        ensures
            r is Some <==> job_of(self@, id) is Some,
            r matches Some(i) ==> i == id - 1,
    {
        if id == 0 || id > self.jobs.len() as u64 {
            return None;
        }
        let i = (id - 1) as usize;
        assert(self@.jobs[i as int] == opt_job(self.jobs@[i as int]));
        if self.jobs[i].is_some() {
            Some(i)
        } else {
            None
        }
    }

    proof fn lemma_replace_ok(o: EngineView, n: EngineView, i: int, j: JobView)
        requires
            engine_ok(o),
            0 <= i < o.jobs.len(),
            o.jobs[i] is Some,
            n.jobs == o.jobs.update(i, Some(j)),
            n.queues == o.queues,
            n.next_ticket == o.next_ticket,
            job_ok(j, i, o.next_ticket),
            j.place is Waiting ==> ticket(j) == ticket(o.jobs[i].unwrap()) && o.jobs[i].unwrap().place is Waiting,
        ensures
            engine_ok(n),
    {
        assert forall|x: int, y: int|
            0 <= x < n.jobs.len() && 0 <= y < n.jobs.len() && x != y
                && (#[trigger] n.jobs[x]) is Some && (#[trigger] n.jobs[y]) is Some
                && n.jobs[x].unwrap().place is Waiting
                && n.jobs[y].unwrap().place is Waiting implies ticket(n.jobs[x].unwrap())
            != ticket(n.jobs[y].unwrap()) by {
            assert(o.jobs[x] is Some);
            assert(o.jobs[y] is Some);
        }
    }

    /// The job with id `id`.
    pub fn get_job(&self, id: u64) -> (r: Option<Job>)
        ensures
            opt_job(r) == job_of(self@, id),
    {
        match self.slot_of(id) {
            Some(i) => Some(self.job_at(i)),
            None => None,
        }
    }

    /// Records a heartbeat of a running job at `now`, moving its deadline on.
    pub fn heartbeat(&mut self, id: u64, now: u64) -> (r: Result<(), OcyError>)
        requires
            old(self).wf(),
        ensures
            final(self).wf(),
            ended_kept(old(self)@, final(self)@),
            r == Err::<(), OcyError>(OcyError::NoSuchJob) <==> job_of(old(self)@, id) is None,
            r == Err::<(), OcyError>(OcyError::BadRequest) <==> job_of(old(self)@, id) is Some
                && job_of(old(self)@, id).unwrap().status != Status::Running,
            r is Err ==> final(self)@ == old(self)@,
            r is Err ==> r == Err::<(), OcyError>(OcyError::NoSuchJob) || r == Err::<(), OcyError>(
                OcyError::BadRequest,
            ),
            r is Ok ==> job_replaced(old(self)@, final(self)@, id, beaten(job_of(old(self)@, id).unwrap(), now)),
    {
        let i = match self.slot_of(id) {
            Some(i) => i,
            None => return Err(OcyError::NoSuchJob),
        };
        let mut j = self.job_at(i);
        if j.status != Status::Running {
            return Err(OcyError::BadRequest);
        }
        let ghost before = j@;
        let started = match j.started_at {
            Some(t) => t,
            None => now,
        };
        j.last_heartbeat = Some(now);
        j.ends_at = if j.settings.heartbeat_timeout.millis > 0 {
            after(now, j.settings.heartbeat_timeout)
        } else {
            after(started, j.settings.timeout)
        };
        assert(j@ == beaten(before, now));
        let ghost o = self@;
        self.put_job(i, j);
        proof {
            assert(job_ok(before, i as int, o.next_ticket));
            Self::lemma_replace_ok(o, self@, i as int, beaten(before, now));
        }
        Ok(())
    }

    /// Moves a job to status `st` at `now`: a running job may complete, be
    /// cancelled or fail, a queued one may be cancelled. A failure goes through
    /// the retry decision.
    pub fn update_job_status(&mut self, id: u64, st: Status, now: u64) -> (r: Result<(), OcyError>)
        requires
            old(self).wf(),
        ensures
            final(self).wf(),
            ended_kept(old(self)@, final(self)@),
            r == Err::<(), OcyError>(OcyError::NoSuchJob) <==> job_of(old(self)@, id) is None,
            r == Err::<(), OcyError>(OcyError::BadRequest) <==> job_of(old(self)@, id) is Some
                && !allowed(job_of(old(self)@, id).unwrap().status, st),
            r is Err ==> final(self)@ == old(self)@,
            r is Err ==> r == Err::<(), OcyError>(OcyError::NoSuchJob) || r == Err::<(), OcyError>(
                OcyError::BadRequest,
            ),
            r is Ok ==> job_replaced(
                old(self)@,
                final(self)@,
                id,
                moved_to(job_of(old(self)@, id).unwrap(), st, now),
            ),
    {
        let i = match self.slot_of(id) {
            Some(i) => i,
            None => return Err(OcyError::NoSuchJob),
        };
        let j = self.job_at(i);
        let ok = match (j.status, st) {
            (Status::Running, Status::Completed) => true,
            (Status::Running, Status::Cancelled) => true,
            (Status::Running, Status::Failed) => true,
            (Status::Queued, Status::Cancelled) => true,
            _ => false,
        };
        if !ok {
            return Err(OcyError::BadRequest);
        }
        let ghost before = j@;
        let ghost o = self@;
        let j = if st == Status::Failed {
            self.fail(j, now)
        } else {
            Self::end(j, st, now)
        };
        self.put_job(i, j);
        proof {
            assert(job_ok(before, i as int, o.next_ticket));
            Self::lemma_replace_ok(o, self@, i as int, moved_to(before, st, now));
        }
        Ok(())
    }

    fn end(j: Job, st: Status, now: u64) -> (r: Job)
        ensures
            r@ == ended(j@, st, now),
    {
        let mut j = j;
        j.status = st;
        j.place = Place::Ended;
        j.ended_at = Some(now);
        j.ends_at = after(now, j.settings.expires_after);
        j
    }

    fn fail(&self, j: Job, now: u64) -> (r: Job)
        ensures
            r@ == failed(j@, now),
    {
        let mut j = j;
        j.timed_out = false;
        if j.retries_attempted < j.settings.retries {
            let d = retry_delay(&j.settings, j.retries_attempted);
            let mut j = j;
            j.status = Status::Failed;
            j.place = Place::Retrying;
            j.ended_at = Some(now);
            j.ends_at = after(now, d);
            j
        } else {
            Self::end(j, Status::Failed, now)
        }
    }

    /// Sets a job's output.
    pub fn set_output(&mut self, id: u64, output: Option<String>) -> (r: Result<(), OcyError>)
        requires
            old(self).wf(),
        ensures
            final(self).wf(),
            ended_kept(old(self)@, final(self)@),
            r is Err <==> job_of(old(self)@, id) is None,
            r is Err ==> r == Err::<(), OcyError>(OcyError::NoSuchJob) && final(self)@ == old(self)@,
            r is Ok ==> job_replaced(
                old(self)@,
                final(self)@,
                id,
                JobView { output: opt_str(output), ..job_of(old(self)@, id).unwrap() },
            ),
    {
        let i = match self.slot_of(id) {
            Some(i) => i,
            None => return Err(OcyError::NoSuchJob),
        };
        let mut j = self.job_at(i);
        let ghost before = j@;
        let ghost o = self@;
        j.output = output;
        self.put_job(i, j);
        proof {
            assert(job_ok(before, i as int, o.next_ticket));
            Self::lemma_replace_ok(o, self@, i as int, JobView { output: opt_str(output), ..before });
        }
        Ok(())
    }

    /// Deletes a job wherever it stands, with its tags.
    pub fn delete_job(&mut self, id: u64) -> (r: Result<(), OcyError>)
        requires
            old(self).wf(),
        ensures
            final(self).wf(),
            ended_kept(old(self)@, final(self)@),
            r is Err <==> job_of(old(self)@, id) is None,
            r is Err ==> r == Err::<(), OcyError>(OcyError::NoSuchJob) && final(self)@ == old(self)@,
            r is Ok ==> final(self)@.jobs == old(self)@.jobs.update(id - 1, None)
                && final(self)@.queues == old(self)@.queues
                && final(self)@.next_ticket == old(self)@.next_ticket,
    {
        let i = match self.slot_of(id) {
            Some(i) => i,
            None => return Err(OcyError::NoSuchJob),
        };
        let ghost o = self@;
        self.jobs.set(i, None);
        assert(self@.jobs =~= o.jobs.update(i as int, None));
        proof {
            let n = self@;
            assert forall|x: int, y: int|
                0 <= x < n.jobs.len() && 0 <= y < n.jobs.len() && x != y
                    && (#[trigger] n.jobs[x]) is Some && (#[trigger] n.jobs[y]) is Some
                    && n.jobs[x].unwrap().place is Waiting
                    && n.jobs[y].unwrap().place is Waiting implies ticket(n.jobs[x].unwrap())
                != ticket(n.jobs[y].unwrap()) by {
                assert(o.jobs[x] is Some);
                assert(o.jobs[y] is Some);
            }
            assert forall|x: int| 0 <= x < n.jobs.len() && (#[trigger] n.jobs[x]) is Some implies job_ok(
                n.jobs[x].unwrap(),
                x,
                n.next_ticket,
            ) by {
                assert(o.jobs[x] is Some);
            }
        }
        Ok(())
    }

    /// Ids of the jobs that hold tag `t`, in ascending order.
    pub fn get_tagged(&self, t: &str) -> (r: Vec<u64>)
        requires
            self.wf(),
        ensures
            tagged_ids(self@, t@, r@),
    {
        let mut r: Vec<u64> = Vec::new();
        let mut i: usize = 0;
        while i < self.jobs.len()
            invariant
                engine_ok(self@),
                i <= self.jobs@.len(),
                self@.jobs.len() == self.jobs@.len(),
                forall|a: int, b: int| 0 <= a < b < r@.len() ==> r@[a] < r@[b],
                forall|a: int| 0 <= a < r@.len() ==> r@[a] <= i,
                forall|id: u64|
                    r@.contains(id) <==> (1 <= id <= i && job_of(self@, id) is Some && job_of(
                        self@,
                        id,
                    ).unwrap().tags.contains(t@)),
            decreases self.jobs@.len() - i,
        {
            assert(self@.jobs[i as int] == opt_job(self.jobs@[i as int]));
            let ghost before = r@;
            match &self.jobs[i] {
                Some(j) => {
                    let ts = crate::job::copy_strings(&j.tags);
                    assert(job_of(self@, (i + 1) as u64) == Some(j@));
                    assert(j@.tags == strs(ts@));
                    if contains_str(&ts, t) {
                        r.push(i as u64 + 1);
                        assert forall|id: u64|
                            r@.contains(id) <==> (1 <= id <= i + 1 && job_of(self@, id) is Some
                                && job_of(self@, id).unwrap().tags.contains(t@)) by {
                            if r@.contains(id) {
                                let k = choose|k: int| 0 <= k < r@.len() && r@[k] == id;
                                if k < before.len() {
                                    assert(before[k] == id);
                                    assert(before.contains(id));
                                } else {
                                    assert(id == i + 1);
                                }
                            }
                            if 1 <= id <= i + 1 && job_of(self@, id) is Some && job_of(self@, id).unwrap().tags.contains(t@) {
                                if id <= i {
                                    assert(before.contains(id));
                                    let k = choose|k: int| 0 <= k < before.len() && before[k] == id;
                                    assert(r@[k] == id);
                                } else {
                                    assert(r@[r@.len() - 1] == id);
                                }
                            }
                        }
                    } else {
                        assert(forall|id: u64| id == i + 1 ==> !(job_of(self@, id).unwrap().tags.contains(t@)));
                    }
                },
                None => {},
            }
            i = i + 1;
        }
        r
    }
    /// Fails every running job whose deadline has passed at `now`, each through
    /// the retry decision, and records that it timed out. Returns how many there were.
    pub fn check_running_timeouts(&mut self, now: u64) -> (r: u64)
        requires
            old(self).wf(),
        ensures
            final(self).wf(),
            ended_kept(old(self)@, final(self)@),
            final(self)@.queues == old(self)@.queues,
            final(self)@.next_ticket == old(self)@.next_ticket,
            final(self)@.jobs.len() == old(self)@.jobs.len(),
            forall|k: int|
                0 <= k < old(self)@.jobs.len() ==> (#[trigger] final(self)@.jobs[k]) == if overdue(
                    old(self)@.jobs[k],
                    now,
                ) {
                    Some(timed_out(old(self)@.jobs[k].unwrap(), now))
                } else {
                    old(self)@.jobs[k]
                },
            r == count_where(old(self)@.jobs, |o: Option<JobView>| overdue(o, now)),
    {
        let ghost o = self@;
        let mut count: u64 = 0;
        let mut i: usize = 0;
        while i < self.jobs.len()
            invariant
                engine_ok(self@),
                i <= o.jobs.len(),
                self@.jobs.len() == o.jobs.len(),
                self.jobs@.len() == o.jobs.len(),
                self@.queues == o.queues,
                self@.next_ticket == o.next_ticket,
                forall|k: int| 0 <= k < i ==> (#[trigger] self@.jobs[k]) == if overdue(o.jobs[k], now) {
                    Some(timed_out(o.jobs[k].unwrap(), now))
                } else {
                    o.jobs[k]
                },
                forall|k: int| i <= k < o.jobs.len() ==> (#[trigger] self@.jobs[k]) == o.jobs[k],
                count == count_where(o.jobs.subrange(0, i as int), |x: Option<JobView>| overdue(x, now)),
            decreases o.jobs.len() - i,
        {
            proof {
                assert(o.jobs.subrange(0, i + 1).drop_last() =~= o.jobs.subrange(0, i as int));
                assert(o.jobs.subrange(0, i + 1).last() == o.jobs[i as int]);
                assert(count_where(o.jobs.subrange(0, i + 1), |x: Option<JobView>| overdue(x, now)) == count_where(
                    o.jobs.subrange(0, i as int),
                    |x: Option<JobView>| overdue(x, now),
                ) + if (|x: Option<JobView>| overdue(x, now))(o.jobs[i as int]) { 1nat } else { 0nat });
                lemma_count_le(o.jobs.subrange(0, i as int), |x: Option<JobView>| overdue(x, now));
            }
            assert(self@.jobs[i as int] == opt_job(self.jobs@[i as int]));
            let due = match &self.jobs[i] {
                Some(j) => j.place == Place::Running && j.ends_at <= now,
                None => false,
            };
            assert(due == overdue(o.jobs[i as int], now));
            if due {
                let j = self.job_at(i);
                let ghost before = j@;
                let ghost s = self@;
                let mut j = self.fail(j, now);
                j.timed_out = true;
                self.put_job(i, j);
                proof {
                    assert(job_ok(before, i as int, s.next_ticket));
                    Self::lemma_replace_ok(s, self@, i as int, timed_out(before, now));
                }
                count = count + 1;
            }
            i = i + 1;
        }
        assert(o.jobs.subrange(0, o.jobs.len() as int) =~= o.jobs);
        count
    }

    /// Removes every ended job that has expired at `now` and whose status is
    /// one of `statuses`. Returns how many there were.
    pub fn check_expiry(&mut self, now: u64, statuses: &Vec<Status>) -> (r: u64)
        requires
            old(self).wf(),
        ensures
            final(self).wf(),
            ended_kept(old(self)@, final(self)@),
            final(self)@.queues == old(self)@.queues,
            final(self)@.next_ticket == old(self)@.next_ticket,
            final(self)@.jobs.len() == old(self)@.jobs.len(),
            forall|k: int|
                0 <= k < old(self)@.jobs.len() ==> (#[trigger] final(self)@.jobs[k]) == if expired(
                    old(self)@.jobs[k],
                    now,
                    statuses@,
                ) {
                    None
                } else {
                    old(self)@.jobs[k]
                },
            r == count_where(old(self)@.jobs, |o: Option<JobView>| expired(o, now, statuses@)),
    {
        let ghost o = self@;
        let mut count: u64 = 0;
        let mut i: usize = 0;
        while i < self.jobs.len()
            invariant
                engine_ok(self@),
                i <= o.jobs.len(),
                self@.jobs.len() == o.jobs.len(),
                self.jobs@.len() == o.jobs.len(),
                self@.queues == o.queues,
                self@.next_ticket == o.next_ticket,
                forall|k: int| 0 <= k < i ==> (#[trigger] self@.jobs[k]) == if expired(o.jobs[k], now, statuses@) {
                    None
                } else {
                    o.jobs[k]
                },
                forall|k: int| i <= k < o.jobs.len() ==> (#[trigger] self@.jobs[k]) == o.jobs[k],
                count == count_where(o.jobs.subrange(0, i as int), |x: Option<JobView>| expired(x, now, statuses@)),
            decreases o.jobs.len() - i,
        {
            proof {
                assert(o.jobs.subrange(0, i + 1).drop_last() =~= o.jobs.subrange(0, i as int));
                assert(o.jobs.subrange(0, i + 1).last() == o.jobs[i as int]);
                assert(count_where(o.jobs.subrange(0, i + 1), |x: Option<JobView>| expired(x, now, statuses@)) == count_where(
                    o.jobs.subrange(0, i as int),
                    |x: Option<JobView>| expired(x, now, statuses@),
                ) + if (|x: Option<JobView>| expired(x, now, statuses@))(o.jobs[i as int]) { 1nat } else { 0nat });
                lemma_count_le(o.jobs.subrange(0, i as int), |x: Option<JobView>| expired(x, now, statuses@));
            }
            assert(self@.jobs[i as int] == opt_job(self.jobs@[i as int]));
            let due = match &self.jobs[i] {
                Some(j) => j.place == Place::Ended && j.ends_at <= now && contains_status(
                    statuses,
                    j.reported_status(),
                ),
                None => false,
            };
            assert(due == expired(o.jobs[i as int], now, statuses@));
            if due {
                let ghost s = self@;
                self.jobs.set(i, None);
                proof {
                    let n = self@;
                    assert(n.jobs =~= s.jobs.update(i as int, None));
                    assert forall|x: int, y: int|
                        0 <= x < n.jobs.len() && 0 <= y < n.jobs.len() && x != y
                            && (#[trigger] n.jobs[x]) is Some && (#[trigger] n.jobs[y]) is Some
                            && n.jobs[x].unwrap().place is Waiting
                            && n.jobs[y].unwrap().place is Waiting implies ticket(n.jobs[x].unwrap())
                        != ticket(n.jobs[y].unwrap()) by {
                        assert(s.jobs[x] is Some);
                        assert(s.jobs[y] is Some);
                    }
                    assert forall|x: int| 0 <= x < n.jobs.len() && (#[trigger] n.jobs[x]) is Some implies job_ok(
                        n.jobs[x].unwrap(),
                        x,
                        n.next_ticket,
                    ) by {
                        assert(s.jobs[x] is Some);
                    }
                }
                count = count + 1;
            }
            i = i + 1;
        }
        assert(o.jobs.subrange(0, o.jobs.len() as int) =~= o.jobs);
        count
    }
    proof fn lemma_requeue_ok(s: EngineView, n: EngineView, i: int, j: JobView)
        requires
            engine_ok(s),
            0 <= i < s.jobs.len(),
            s.jobs[i] is Some,
            n.jobs == s.jobs.update(i, Some(j)),
            n.queues == s.queues,
            n.next_ticket == s.next_ticket + 1,
            j.place == (Place::Waiting { ticket: s.next_ticket }),
            job_ok(j, i, n.next_ticket),
        ensures
            engine_ok(n),
    {
        assert forall|x: int| 0 <= x < n.jobs.len() && (#[trigger] n.jobs[x]) is Some implies job_ok(
            n.jobs[x].unwrap(),
            x,
            n.next_ticket,
        ) by {
            if x != i {
                assert(job_ok(s.jobs[x].unwrap(), x, s.next_ticket));
            }
        }
        assert forall|x: int, y: int|
            0 <= x < n.jobs.len() && 0 <= y < n.jobs.len() && x != y
                && (#[trigger] n.jobs[x]) is Some && (#[trigger] n.jobs[y]) is Some
                && n.jobs[x].unwrap().place is Waiting
                && n.jobs[y].unwrap().place is Waiting implies ticket(n.jobs[x].unwrap())
            != ticket(n.jobs[y].unwrap()) by {
            if x != i {
                assert(job_ok(s.jobs[x].unwrap(), x, s.next_ticket));
            }
            if y != i {
                assert(job_ok(s.jobs[y].unwrap(), y, s.next_ticket));
            }
        }
    }

    /// Handles every failed job whose re-attempt is due at `now`: it goes back
    /// on its queue's ready list with one re-attempt more, or ends as failed
    /// where its queue no longer exists. Returns how many were due.
    pub fn check_retries(&mut self, now: u64) -> (r: u64)
        requires
            old(self).wf(),
        ensures
            final(self).wf(),
            ended_kept(old(self)@, final(self)@),
            final(self)@.queues == old(self)@.queues,
            final(self)@.next_ticket >= old(self)@.next_ticket,
            final(self)@.jobs.len() == old(self)@.jobs.len(),
            forall|k: int|
                0 <= k < old(self)@.jobs.len() ==> retried(
                    old(self)@.jobs[k],
                    #[trigger] final(self)@.jobs[k],
                    old(self)@.queues,
                    now,
                    old(self)@.next_ticket,
                    final(self)@.next_ticket,
                ),
            r == count_where(old(self)@.jobs, |x: Option<JobView>| retry_due(x, now)),
    {
        let ghost o = self@;
        let mut count: u64 = 0;
        let mut i: usize = 0;
        while i < self.jobs.len()
            invariant
                engine_ok(self@),
                i <= o.jobs.len(),
                self@.jobs.len() == o.jobs.len(),
                self.jobs@.len() == o.jobs.len(),
                self@.queues == o.queues,
                self@.next_ticket >= o.next_ticket,
                forall|k: int|
                    0 <= k < i ==> retried(
                        o.jobs[k],
                        #[trigger] self@.jobs[k],
                        o.queues,
                        now,
                        o.next_ticket,
                        self@.next_ticket,
                    ),
                forall|k: int| i <= k < o.jobs.len() ==> (#[trigger] self@.jobs[k]) == o.jobs[k],
                count == count_where(o.jobs.subrange(0, i as int), |x: Option<JobView>| retry_due(x, now)),
            decreases o.jobs.len() - i,
        {
            proof {
                assert(o.jobs.subrange(0, i + 1).drop_last() =~= o.jobs.subrange(0, i as int));
                assert(o.jobs.subrange(0, i + 1).last() == o.jobs[i as int]);
                lemma_count_le(o.jobs.subrange(0, i as int), |x: Option<JobView>| retry_due(x, now));
            }
            assert(self@.jobs[i as int] == opt_job(self.jobs@[i as int]));
            let due = match &self.jobs[i] {
                Some(j) => j.place == Place::Retrying && j.ends_at <= now,
                None => false,
            };
            assert(due == retry_due(o.jobs[i as int], now));
            if due {
                let j = self.job_at(i);
                let ghost before = j@;
                let ghost s = self@;
                proof {
                    assert(job_ok(before, i as int, s.next_ticket));
                }
                if self.find_queue(j.queue.as_str()).is_none() {
                    let j = Self::end(j, Status::Failed, now);
                    self.put_job(i, j);
                    proof {
                        Self::lemma_replace_ok(s, self@, i as int, ended(before, Status::Failed, now));
                    }
                } else if self.next_ticket < u64::MAX {
                    let mut j = j;
                    j.status = Status::Queued;
                    j.place = Place::Waiting { ticket: self.next_ticket };
                    j.output = None;
                    j.retries_attempted = j.retries_attempted + 1;
                    assert(j@ == requeued(before, s.next_ticket));
                    self.put_job(i, j);
                    self.next_ticket = self.next_ticket + 1;
                    proof {
                        Self::lemma_requeue_ok(s, self@, i as int, requeued(before, s.next_ticket));
                    }
                }
                count = count + 1;
            }
            i = i + 1;
        }
        assert(o.jobs.subrange(0, o.jobs.len() as int) =~= o.jobs);
        count
    }
    /// Names of all queues, in order of creation.
    pub fn queue_names(&self) -> (r: Vec<String>)
        requires
            self.wf(),
        ensures
            names_distinct(self@.queues),
            strs(r@) == self@.queues.map_values(|q: QueueView| q.name),
    {
        let mut r: Vec<String> = Vec::new();
        let mut i: usize = 0;
        while i < self.queues.len()
            invariant
                i <= self.queues@.len(),
                self@.queues.len() == self.queues@.len(),
                r@.len() == i,
                forall|k: int| 0 <= k < i ==> (#[trigger] r@[k])@ == self@.queues[k].name,
            decreases self.queues@.len() - i,
        {
            assert(self@.queues[i as int] == self.queues@[i as int]@);
            r.push(self.queues[i].name.clone());
            i = i + 1;
        }
        assert(strs(r@) =~= self@.queues.map_values(|q: QueueView| q.name));
        r
    }

    /// The settings of queue `name`.
    pub fn queue_settings(&self, name: &str) -> (r: Result<Settings, OcyError>)
        ensures
            r is Err <==> !has_queue(self@.queues, name@),
            r is Err ==> r == Err::<Settings, OcyError>(OcyError::NoSuchQueue),
            r matches Ok(st) ==> exists|i: int|
                is_first_named(self@.queues, name@, i) && st@ == self@.queues[i].settings,
    {
        match self.find_queue(name) {
            Some(i) => {
                assert(self@.queues[i as int] == self.queues@[i as int]@);
                Ok(self.queues[i].settings.duplicate())
            },
            None => Err(OcyError::NoSuchQueue),
        }
    }

    /// Ids of the jobs waiting on queue `name`, in the order they will be served.
    pub fn queue_job_ids(&self, name: &str) -> (r: Result<Vec<u64>, OcyError>)
        requires
            self.wf(),
        ensures
            r is Err <==> !has_queue(self@.queues, name@),
            r is Err ==> r == Err::<Vec<u64>, OcyError>(OcyError::NoSuchQueue),
            r matches Ok(ids) ==> waiting_ids(self@, name@, ids@),
    {
        if self.find_queue(name).is_none() {
            return Err(OcyError::NoSuchQueue);
        }
        let ghost v = self@;
        let mut r: Vec<u64> = Vec::new();
        let mut ts: Vec<u64> = Vec::new();
        let mut i: usize = 0;
        while i < self.jobs.len()
            invariant
                v == self@,
                engine_ok(v),
                i <= self.jobs@.len(),
                v.jobs.len() == self.jobs@.len(),
                r@.len() == ts@.len(),
                forall|a: int|
                    0 <= a < r@.len() ==> 1 <= #[trigger] r@[a] <= i && job_of(v, r@[a]) is Some
                        && is_waiting_on(job_of(v, r@[a]).unwrap(), name@) && ts@[a] == ticket(
                        job_of(v, r@[a]).unwrap(),
                    ),
                forall|a: int, b: int| 0 <= a < b < ts@.len() ==> ts@[a] < ts@[b],
                forall|id: u64|
                    1 <= id <= i && job_of(v, id) is Some && is_waiting_on(job_of(v, id).unwrap(), name@)
                        ==> r@.contains(id),
            decreases self.jobs@.len() - i,
        {
            assert(v.jobs[i as int] == opt_job(self.jobs@[i as int]));
            let mut t: u64 = 0;
            let hit = match &self.jobs[i] {
                Some(j) => match j.place {
                    Place::Waiting { ticket: tk } => {
                        t = tk;
                        str_eq(j.queue.as_str(), name)
                    },
                    _ => false,
                },
                None => false,
            };
            let ghost id = (i + 1) as u64;
            assert(hit == (job_of(v, id) is Some && is_waiting_on(job_of(v, id).unwrap(), name@)));
            if hit {
                assert(t == ticket(job_of(v, id).unwrap()));
                let mut p: usize = 0;
                while p < ts.len() && ts[p] < t
                    invariant
                        p <= ts@.len(),
                        forall|a: int| 0 <= a < p ==> ts@[a] < t,
                    decreases ts@.len() - p,
                {
                    p = p + 1;
                }
                if p < ts.len() {
                    let ghost other = r@[p as int];
                    assert(job_ok(v.jobs[i as int].unwrap(), i as int, v.next_ticket));
                    assert(v.jobs[other - 1] is Some);
                    assert(ts@[p as int] != t);
                }
                let ghost r0 = r@;
                let ghost ts0 = ts@;
                r.insert(p, i as u64 + 1);
                ts.insert(p, t);
                proof {
                    r0.insert_ensures(p as int, id);
                    ts0.insert_ensures(p as int, t);
                    assert forall|a: int|
                        0 <= a < r@.len() implies 1 <= #[trigger] r@[a] <= i + 1 && job_of(v, r@[a]) is Some
                            && is_waiting_on(job_of(v, r@[a]).unwrap(), name@) && ts@[a] == ticket(
                            job_of(v, r@[a]).unwrap(),
                        ) by {
                        if a > p {
                            assert(r@[a] == r0[a - 1]);
                        }
                    }
                    assert forall|a: int, b: int| 0 <= a < b < ts@.len() implies ts@[a] < ts@[b] by {
                        if a < p && b > p {
                            assert(ts@[b] == ts0[b - 1]);
                        } else if a == p && b > p {
                            assert(ts@[b] == ts0[b - 1]);
                            assert(ts0[p as int] <= ts0[b - 1]);
                        } else if a > p {
                            assert(ts@[a] == ts0[a - 1]);
                            assert(ts@[b] == ts0[b - 1]);
                        }
                    }
                    assert forall|x: u64|
                        1 <= x <= i + 1 && job_of(v, x) is Some && is_waiting_on(job_of(v, x).unwrap(), name@)
                            implies r@.contains(x) by {
                        if x == id {
                            assert(r@[p as int] == x);
                        } else {
                            assert(r0.contains(x));
                            let k = choose|k: int| 0 <= k < r0.len() && r0[k] == x;
                            if k < p {
                                assert(r@[k] == x);
                            } else {
                                assert(r@[k + 1] == x);
                            }
                        }
                    }
                }
            }
            i = i + 1;
        }
        proof {
            assert forall|id: u64|
                job_of(v, id) is Some && is_waiting_on(job_of(v, id).unwrap(), name@) implies r@.contains(id) by {
            }
            assert forall|a: int, b: int|
                0 <= a < b < r@.len() implies ticket(job_of(v, #[trigger] r@[a]).unwrap()) < ticket(
                job_of(v, #[trigger] r@[b]).unwrap(),
            ) by {
                assert(ts@[a] < ts@[b]);
            }
        }
        Ok(r)
    }

    /// How many jobs wait on queue `name`.
    pub fn queue_size(&self, name: &str) -> (r: Result<u64, OcyError>)
        requires
            self.wf(),
        ensures
            r is Err <==> !has_queue(self@.queues, name@),
            r is Err ==> r == Err::<u64, OcyError>(OcyError::NoSuchQueue),
            r matches Ok(n) ==> exists|ids: Seq<u64>| waiting_ids(self@, name@, ids) && n == ids.len(),
    {
        match self.queue_job_ids(name) {
            Ok(ids) => Ok(ids.len() as u64),
            Err(e) => Err(e),
        }
    }

    /// Deletes queue `name` with the jobs waiting on it. Jobs of the queue that
    /// are running or ended are left to finish their course. Returns whether
    /// the queue existed.
    pub fn delete_queue(&mut self, name: &str) -> (r: bool)
        requires
            old(self).wf(),
        ensures
            final(self).wf(),
            ended_kept(old(self)@, final(self)@),
            r == has_queue(old(self)@.queues, name@),
            !has_queue(final(self)@.queues, name@),
            !r ==> final(self)@ == old(self)@,
            r ==> exists|i: int|
                is_first_named(old(self)@.queues, name@, i) && final(self)@.queues == old(
                    self,
                )@.queues.remove(i),
            final(self)@.next_ticket == old(self)@.next_ticket,
            final(self)@.jobs.len() == old(self)@.jobs.len(),
            r ==> forall|k: int|
                0 <= k < old(self)@.jobs.len() ==> (#[trigger] final(self)@.jobs[k]) == if old(
                    self,
                )@.jobs[k] is Some && is_waiting_on(old(self)@.jobs[k].unwrap(), name@) {
                    None
                } else {
                    old(self)@.jobs[k]
                },
    {
        let qi = match self.find_queue(name) {
            Some(qi) => qi,
            None => return false,
        };
        let ghost o = self@;
        self.queues.remove(qi);
        assert(self@.queues =~= o.queues.remove(qi as int));
        let mut i: usize = 0;
        while i < self.jobs.len()
            invariant
                engine_ok(self@),
                i <= o.jobs.len(),
                self@.jobs.len() == o.jobs.len(),
                self.jobs@.len() == o.jobs.len(),
                self@.queues == o.queues.remove(qi as int),
                self@.next_ticket == o.next_ticket,
                forall|k: int| 0 <= k < i ==> (#[trigger] self@.jobs[k]) == if o.jobs[k] is Some
                    && is_waiting_on(o.jobs[k].unwrap(), name@) {
                    None
                } else {
                    o.jobs[k]
                },
                forall|k: int| i <= k < o.jobs.len() ==> (#[trigger] self@.jobs[k]) == o.jobs[k],
            decreases o.jobs.len() - i,
        {
            assert(self@.jobs[i as int] == opt_job(self.jobs@[i as int]));
            let hit = match &self.jobs[i] {
                Some(j) => match j.place {
                    Place::Waiting { .. } => str_eq(j.queue.as_str(), name),
                    _ => false,
                },
                None => false,
            };
            if hit {
                let ghost s = self@;
                self.jobs.set(i, None);
                proof {
                    let n = self@;
                    assert(n.jobs =~= s.jobs.update(i as int, None));
                    assert forall|x: int, y: int|
                        0 <= x < n.jobs.len() && 0 <= y < n.jobs.len() && x != y
                            && (#[trigger] n.jobs[x]) is Some && (#[trigger] n.jobs[y]) is Some
                            && n.jobs[x].unwrap().place is Waiting
                            && n.jobs[y].unwrap().place is Waiting implies ticket(n.jobs[x].unwrap())
                        != ticket(n.jobs[y].unwrap()) by {
                        assert(s.jobs[x] is Some);
                        assert(s.jobs[y] is Some);
                    }
                    assert forall|x: int| 0 <= x < n.jobs.len() && (#[trigger] n.jobs[x]) is Some implies job_ok(
                        n.jobs[x].unwrap(),
                        x,
                        n.next_ticket,
                    ) by {
                        assert(s.jobs[x] is Some);
                    }
                }
            }
            i = i + 1;
        }
        true
    }
}

} // verus!
