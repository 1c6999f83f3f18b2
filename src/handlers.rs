//! What each HTTP endpoint answers, given the outcome of its engine operation.
use vstd::prelude::*;
use crate::engine::OcyError;
use crate::models::Duration;
use crate::text::{decimal, push_decimal};

verus! {

/// An HTTP answer: the status code, and the `Location` header where there is one.
pub struct Reply {
    pub status: u16,
    pub location: Option<String>,
    /// How long to wait before answering, in milliseconds.
    pub delay_ms: u64,
}

pub open spec fn loc(r: Reply) -> Option<Seq<char>> {
    match r.location {
        Some(s) => Some(s@),
        None => None,
    }
}

/// The code for a failure that an endpoint does not handle itself.
pub open spec fn fallback_code(e: OcyError) -> u16 {
    if e == OcyError::RedisConnection {
        503
    } else {
        500
    }
}

/// The code each kind of failure maps to.
pub open spec fn error_code(e: OcyError) -> u16 {
    match e {
        OcyError::NoSuchQueue => 404,
        OcyError::NoSuchJob => 404,
        OcyError::BadRequest => 400,
        OcyError::Conflict => 409,
        OcyError::RedisConnection => 503,
        OcyError::Internal => 500,
    }
}

pub fn error_status(e: OcyError) -> (r: u16)
    ensures
        r == error_code(e),
{
    match e {
        OcyError::NoSuchQueue => 404,
        OcyError::NoSuchJob => 404,
        OcyError::BadRequest => 400,
        OcyError::Conflict => 409,
        OcyError::RedisConnection => 503,
        OcyError::Internal => 500,
    }
}

fn fallback(e: OcyError) -> (r: u16)
    ensures
        r == fallback_code(e),
{
    if e == OcyError::RedisConnection {
        503
    } else {
        500
    }
}

fn plain(status: u16) -> (r: Reply)
    ensures
        r.status == status,
        r.location is None,
        r.delay_ms == 0,
{
    Reply { status, location: None, delay_ms: 0 }
}

/// `GET /queue`: 200 with the names.
pub fn index(r: Result<(), OcyError>) -> (out: Reply)
    ensures
        out.status == match r {
            Ok(_) => 200,
            Err(e) => fallback_code(e),
        },
        out.location is None,
{
    match r {
        Ok(_) => plain(200),
        Err(e) => plain(fallback(e)),
    }
}

/// The path of a queue.
pub open spec fn queue_path(name: Seq<char>) -> Seq<char> {
    "/queue/"@ + name
}

/// The path of a job.
pub open spec fn job_path(id: u64) -> Seq<char> {
    "/job/"@ + decimal(id as nat)
}

/// `PUT /queue/{name}`: 201 when created, 204 when updated, both with the
/// queue's location; 400 for invalid settings.
pub fn create_or_update(name: &str, r: Result<bool, OcyError>) -> (out: Reply)
    ensures
        out.status == match r {
            Ok(true) => 201,
            Ok(false) => 204,
            Err(OcyError::BadRequest) => 400,
            Err(e) => fallback_code(e),
        },
        r is Ok ==> loc(out) == Some(queue_path(name@)),
        r is Err ==> out.location is None,
{
    match r {
        Ok(created) => {
            let mut l = String::from_str("/queue/");
            l.append(name);
            Reply { status: if created { 201 } else { 204 }, location: Some(l), delay_ms: 0 }
        },
        Err(OcyError::BadRequest) => plain(400),
        Err(e) => plain(fallback(e)),
    }
}

/// `DELETE /queue/{name}`: 204 when deleted, 404 when there was none.
pub fn delete(r: Result<bool, OcyError>) -> (out: Reply)
    ensures
        out.status == match r {
            Ok(true) => 204,
            Ok(false) => 404,
            Err(OcyError::BadRequest) => 400,
            Err(e) => fallback_code(e),
        },
        out.location is None,
{
    match r {
        Ok(true) => plain(204),
        Ok(false) => plain(404),
        Err(OcyError::BadRequest) => plain(400),
        Err(e) => plain(fallback(e)),
    }
}

/// The answer of a read of one queue: 200, or 404 where it does not exist.
pub open spec fn read_code(r: Result<(), OcyError>) -> u16 {
    match r {
        Ok(_) => 200,
        Err(OcyError::NoSuchQueue) => 404,
        Err(e) => fallback_code(e),
    }
}

fn read_reply(r: Result<(), OcyError>) -> (out: Reply)
    ensures
        out.status == read_code(r),
        out.location is None,
{
    match r {
        Ok(_) => plain(200),
        Err(OcyError::NoSuchQueue) => plain(404),
        Err(e) => plain(fallback(e)),
    }
}

/// `GET /queue/{name}`.
pub fn settings(r: Result<(), OcyError>) -> (out: Reply)
    ensures
        out.status == read_code(r),
        out.location is None,
{
    read_reply(r)
}

/// `GET /queue/{name}/size`.
pub fn size(r: Result<(), OcyError>) -> (out: Reply)
    ensures
        out.status == read_code(r),
        out.location is None,
{
    read_reply(r)
}

/// `GET /queue/{name}/job_ids`.
pub fn job_ids(r: Result<(), OcyError>) -> (out: Reply)
    ensures
        out.status == read_code(r),
        out.location is None,
{
    read_reply(r)
}

/// `POST /queue/{name}/job`: 201 with the new job's location.
pub fn create_job(r: Result<u64, OcyError>) -> (out: Reply)
    ensures
        out.status == match r {
            Ok(_) => 201,
            Err(OcyError::NoSuchQueue) => 404,
            Err(OcyError::BadRequest) => 400,
            Err(e) => fallback_code(e),
        },
        r matches Ok(id) ==> loc(out) == Some(job_path(id)),
        r is Err ==> out.location is None,
{
    match r {
        Ok(id) => {
            let mut l = String::from_str("/job/");
            push_decimal(&mut l, id);
            Reply { status: 201, location: Some(l), delay_ms: 0 }
        },
        Err(OcyError::NoSuchQueue) => plain(404),
        Err(OcyError::BadRequest) => plain(400),
        Err(e) => plain(fallback(e)),
    }
}

/// `GET /queue/{name}/job`: 200 with the reserved job, or 204 for an empty
/// queue, after the configured delay where there is a non-zero one.
pub fn next_job(r: Result<bool, OcyError>, delay: Option<Duration>) -> (out: Reply)
    ensures
        out.status == match r {
            Ok(true) => 200,
            Ok(false) => 204,
            Err(OcyError::NoSuchQueue) => 404,
            Err(e) => fallback_code(e),
        },
        out.delay_ms == match (r, delay) {
            (Ok(false), Some(d)) => d.millis,
            _ => 0,
        },
        out.location is None,
{
    match r {
        Ok(true) => plain(200),
        Ok(false) => match delay {
            Some(d) => Reply { status: 204, location: None, delay_ms: d.millis },
            None => plain(204),
        },
        Err(OcyError::NoSuchQueue) => plain(404),
        Err(e) => plain(fallback(e)),
    }
}

/// `POST /queue/{name}/job/{timestamp}`: 500 where the logged request could
/// not be read back, else as for creating a job.
pub fn reattempt_job(read_ok: bool, r: Result<u64, OcyError>) -> (out: Reply)
    ensures
        !read_ok ==> out.status == 500 && out.location is None,
        read_ok ==> out.status == match r {
            Ok(_) => 201,
            Err(OcyError::NoSuchQueue) => 404,
            Err(OcyError::BadRequest) => 400,
            Err(e) => fallback_code(e),
        },
        read_ok ==> (r matches Ok(id) ==> loc(out) == Some(job_path(id))),
        r is Err ==> out.location is None,
{
    if !read_ok {
        plain(500)
    } else {
        create_job(r)
    }
}

} // verus!
