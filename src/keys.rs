//! Names of the keys under which queues, jobs and tags are stored.
use vstd::prelude::*;
use crate::text::{decimal, push_decimal};

verus! {

/// The set of all queue names.
pub fn queues_key() -> (r: String)
    ensures
        r@ == "queues"@,
{
    String::from_str("queues")
}

/// The running jobs, scored by deadline.
pub fn running_key() -> (r: String)
    ensures
        r@ == "jobs:running"@,
{
    String::from_str("jobs:running")
}

/// The failed jobs waiting for a re-attempt, scored by when it is due.
pub fn failed_key() -> (r: String)
    ensures
        r@ == "jobs:failed"@,
{
    String::from_str("jobs:failed")
}

/// The ended jobs, scored by expiry.
pub fn ended_key() -> (r: String)
    ensures
        r@ == "jobs:ended"@,
{
    String::from_str("jobs:ended")
}

/// The counter that job ids are drawn from.
pub fn next_id_key() -> (r: String)
    ensures
        r@ == "job:next_id"@,
{
    String::from_str("job:next_id")
}

/// `prefix`, then `name`, then `suffix`.
pub open spec fn framed(prefix: Seq<char>, name: Seq<char>, suffix: Seq<char>) -> Seq<char> {
    prefix + name + suffix
}

fn frame(prefix: &str, name: &str, suffix: &str) -> (r: String)
    ensures
        r@ == framed(prefix@, name@, suffix@),
{
    let mut s = String::from_str(prefix);
    s.append(name);
    s.append(suffix);
    s
}

/// The settings of queue `q`.
pub fn queue_settings_key(q: &str) -> (r: String)
    ensures
        r@ == framed("queue:"@, q@, ":settings"@),
{
    frame("queue:", q, ":settings")
}

/// The ready list of queue `q`.
pub fn queue_jobs_key(q: &str) -> (r: String)
    ensures
        r@ == framed("queue:"@, q@, ":jobs"@),
{
    frame("queue:", q, ":jobs")
}

/// The ids of the jobs that hold tag `t`.
pub fn tag_key(t: &str) -> (r: String)
    ensures
        r@ == "tag:"@ + t@,
{
    let mut s = String::from_str("tag:");
    s.append(t);
    s
}

/// The fields of job `id`.
pub fn job_key(id: u64) -> (r: String)
    ensures
        r@ == "job:"@ + decimal(id as nat),
{
    let mut s = String::from_str("job:");
    push_decimal(&mut s, id);
    s
}

/// The tags of job `id`.
pub fn job_tags_key(id: u64) -> (r: String)
    ensures
        r@ == "job:"@ + decimal(id as nat) + ":tags"@,
{
    let mut s = job_key(id);
    s.append(":tags");
    s
}

/// Different jobs are stored under different keys.
pub proof fn lemma_job_keys_distinct(a: u64, b: u64)
    requires
        a != b,
    ensures
        "job:"@ + decimal(a as nat) != "job:"@ + decimal(b as nat),
{
    let p = "job:"@;
    if p + decimal(a as nat) == p + decimal(b as nat) {
        assert(decimal(a as nat) =~= (p + decimal(a as nat)).subrange(p.len() as int, (p + decimal(a as nat)).len() as int));
        assert(decimal(b as nat) =~= (p + decimal(b as nat)).subrange(p.len() as int, (p + decimal(b as nat)).len() as int));
        crate::text::lemma_decimal_injective(a as nat, b as nat);
    }
}

} // verus!
