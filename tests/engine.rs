use ocypod::engine::{Engine, OcyError};
use ocypod::job::Place;
use ocypod::models::{CreateRequest, Duration, Settings, Status};

fn settings(timeout_s: u64, retries: u64, delays: Vec<u64>) -> Settings {
    Settings {
        timeout: Duration::from_secs(timeout_s),
        heartbeat_timeout: Duration::from_secs(0),
        expires_after: Duration::from_secs(60),
        retries,
        retry_delays: delays.into_iter().map(Duration::from_secs).collect(),
    }
}

fn request(tags: Option<Vec<&str>>) -> CreateRequest {
    CreateRequest {
        input: Some("{\"x\":1}".to_string()),
        tags: tags.map(|t| t.into_iter().map(|s| s.to_string()).collect()),
        timeout: None,
        heartbeat_timeout: None,
        expires_after: None,
        retries: None,
        retry_delays: None,
    }
}

#[test]
fn upsert_reports_created_then_updated() {
    let mut e = Engine::new();
    assert_eq!(e.create_or_update_queue("q1", settings(5, 0, vec![])), Ok(true));
    assert_eq!(e.create_or_update_queue("q1", settings(5, 0, vec![])), Ok(false));
    assert_eq!(e.create_or_update_queue("q1", settings(5, 0, vec![])), Ok(false));
    assert_eq!(e.queue_names(), vec!["q1".to_string()]);
    assert_eq!(e.queue_settings("q1").unwrap().timeout.millis, 5000);
}

#[test]
fn invalid_queue_name_is_rejected() {
    let mut e = Engine::new();
    assert_eq!(e.create_or_update_queue("bad name", settings(5, 0, vec![])), Err(OcyError::BadRequest));
    assert_eq!(e.create_or_update_queue("", settings(5, 0, vec![])), Err(OcyError::BadRequest));
    assert_eq!(e.create_or_update_queue("a_3rd.queue-x", settings(5, 0, vec![])), Ok(true));
}

#[test]
fn timed_out_job_without_retries_ends_failed() {
    let mut e = Engine::new();
    e.create_or_update_queue("q1", settings(5, 0, vec![])).unwrap();
    let id = e.create_job("q1", &request(None), 1_000).unwrap();
    assert_eq!(id, 1);
    assert_eq!(e.queue_size("q1"), Ok(1));
    let j = e.next_queued_job("q1", 2_000).unwrap().unwrap();
    assert_eq!(j.status, Status::Running);
    assert_eq!(j.ends_at, 7_000);
    assert_eq!(e.check_running_timeouts(7_000), 1);
    assert_eq!(e.heartbeat(1, 7_500), Err(OcyError::BadRequest));
    let j = e.get_job(1).unwrap();
    assert_eq!(j.status, Status::Failed);
    assert_eq!(j.place, Place::Ended);
    assert!(j.timed_out);
    assert_eq!(j.reported_status(), Status::TimedOut);
}

#[test]
fn expiry_by_timed_out_status() {
    let mut e = Engine::new();
    e.create_or_update_queue("q", settings(5, 0, vec![])).unwrap();
    let slow = e.create_job("q", &request(None), 0).unwrap();
    let failed = e.create_job("q", &request(None), 0).unwrap();
    e.next_queued_job("q", 0).unwrap();
    e.next_queued_job("q", 0).unwrap();
    e.update_job_status(failed, Status::Failed, 0).unwrap();
    assert_eq!(e.check_running_timeouts(5_000), 1);
    assert_eq!(e.get_job(failed).unwrap().reported_status(), Status::Failed);
    assert_eq!(e.check_expiry(u64::MAX, &vec![Status::TimedOut]), 1);
    assert!(e.get_job(slow).is_none());
    assert!(e.get_job(failed).is_some());
}

#[test]
fn retry_delays_then_terminal_failure() {
    let mut e = Engine::new();
    e.create_or_update_queue("q", settings(30, 2, vec![1, 2])).unwrap();
    let id = e.create_job("q", &request(None), 0).unwrap();
    let mut t: u64 = 10_000;
    let mut seen = Vec::new();
    for _ in 0..3 {
        e.next_queued_job("q", t).unwrap().unwrap();
        e.update_job_status(id, Status::Failed, t).unwrap();
        let j = e.get_job(id).unwrap();
        seen.push((j.place, j.ends_at - t));
        t = j.ends_at;
        e.check_retries(t);
    }
    assert_eq!(seen[0], (Place::Retrying, 1_000));
    assert_eq!(seen[1], (Place::Retrying, 2_000));
    assert_eq!(seen[2], (Place::Ended, 60_000));
    let j = e.get_job(id).unwrap();
    assert_eq!(j.retries_attempted, 2);
    assert_eq!(j.status, Status::Failed);
}

#[test]
fn one_job_is_reserved_once() {
    let mut e = Engine::new();
    e.create_or_update_queue("q", settings(30, 0, vec![])).unwrap();
    e.create_job("q", &request(None), 0).unwrap();
    assert!(e.next_queued_job("q", 1).unwrap().is_some());
    assert!(e.next_queued_job("q", 1).unwrap().is_none());
}

#[test]
fn jobs_are_served_in_creation_order() {
    let mut e = Engine::new();
    e.create_or_update_queue("q", settings(30, 0, vec![])).unwrap();
    e.create_or_update_queue("other", settings(30, 0, vec![])).unwrap();
    let a = e.create_job("q", &request(None), 0).unwrap();
    let x = e.create_job("other", &request(None), 0).unwrap();
    let b = e.create_job("q", &request(None), 0).unwrap();
    let c = e.create_job("q", &request(None), 0).unwrap();
    assert_eq!(e.queue_job_ids("q"), Ok(vec![a, b, c]));
    assert_eq!(e.next_queued_job("q", 1).unwrap().unwrap().id, a);
    assert_eq!(e.next_queued_job("q", 1).unwrap().unwrap().id, b);
    assert_eq!(e.next_queued_job("other", 1).unwrap().unwrap().id, x);
    assert_eq!(e.next_queued_job("q", 1).unwrap().unwrap().id, c);
}

#[test]
fn missing_queue_and_job_errors() {
    let mut e = Engine::new();
    assert_eq!(e.create_job("nope", &request(None), 0), Err(OcyError::NoSuchQueue));
    assert!(matches!(e.next_queued_job("nope", 0), Err(OcyError::NoSuchQueue)));
    assert_eq!(e.queue_size("nope"), Err(OcyError::NoSuchQueue));
    assert_eq!(e.heartbeat(3, 0), Err(OcyError::NoSuchJob));
    assert_eq!(e.update_job_status(3, Status::Completed, 0), Err(OcyError::NoSuchJob));
    assert_eq!(e.delete_job(3), Err(OcyError::NoSuchJob));
    assert!(e.get_job(3).is_none());
}

#[test]
fn illegal_transitions_are_bad_requests() {
    let mut e = Engine::new();
    e.create_or_update_queue("q", settings(30, 0, vec![])).unwrap();
    let id = e.create_job("q", &request(None), 0).unwrap();
    assert_eq!(e.update_job_status(id, Status::Completed, 1), Err(OcyError::BadRequest));
    assert_eq!(e.update_job_status(id, Status::Failed, 1), Err(OcyError::BadRequest));
    assert_eq!(e.update_job_status(id, Status::Cancelled, 1), Ok(()));
    assert_eq!(e.get_job(id).unwrap().ends_at, 60_001);
    assert_eq!(e.queue_size("q"), Ok(0));
}

#[test]
fn tags_follow_creation_and_deletion() {
    let mut e = Engine::new();
    e.create_or_update_queue("q", settings(30, 0, vec![])).unwrap();
    let id = e.create_job("q", &request(Some(vec!["a", "b", "a"])), 0).unwrap();
    assert_eq!(e.get_job(id).unwrap().tags, vec!["a".to_string(), "b".to_string()]);
    assert_eq!(e.get_tagged("a"), vec![id]);
    assert_eq!(e.get_tagged("c"), Vec::<u64>::new());
    e.delete_job(id).unwrap();
    assert_eq!(e.get_tagged("a"), Vec::<u64>::new());
}

#[test]
fn expiry_removes_only_listed_statuses() {
    let mut e = Engine::new();
    e.create_or_update_queue("q", settings(30, 0, vec![])).unwrap();
    let failed = e.create_job("q", &request(None), 0).unwrap();
    let done = e.create_job("q", &request(None), 0).unwrap();
    e.next_queued_job("q", 0).unwrap();
    e.next_queued_job("q", 0).unwrap();
    e.update_job_status(failed, Status::Failed, 0).unwrap();
    e.update_job_status(done, Status::Completed, 0).unwrap();
    assert_eq!(e.check_expiry(59_999, &vec![Status::Completed]), 0);
    assert_eq!(e.check_expiry(60_000, &vec![Status::Completed]), 1);
    assert!(e.get_job(done).is_none());
    assert!(e.get_job(failed).is_some());
}

#[test]
fn heartbeat_moves_deadline() {
    let mut e = Engine::new();
    let mut s = settings(300, 0, vec![]);
    s.heartbeat_timeout = Duration::from_secs(10);
    e.create_or_update_queue("q", s).unwrap();
    let id = e.create_job("q", &request(None), 0).unwrap();
    assert_eq!(e.next_queued_job("q", 1_000).unwrap().unwrap().ends_at, 11_000);
    e.heartbeat(id, 5_000).unwrap();
    assert_eq!(e.get_job(id).unwrap().ends_at, 15_000);
    assert_eq!(e.check_running_timeouts(14_999), 0);
    e.set_output(id, Some("42".to_string())).unwrap();
    assert_eq!(e.get_job(id).unwrap().output, Some("42".to_string()));
}

#[test]
fn deleting_queue_drops_waiting_jobs_only() {
    let mut e = Engine::new();
    e.create_or_update_queue("q", settings(30, 0, vec![])).unwrap();
    let running = e.create_job("q", &request(None), 0).unwrap();
    let waiting = e.create_job("q", &request(None), 0).unwrap();
    e.next_queued_job("q", 0).unwrap();
    assert!(e.delete_queue("q"));
    assert!(!e.delete_queue("q"));
    assert!(e.get_job(waiting).is_none());
    assert_eq!(e.get_job(running).unwrap().status, Status::Running);
}

#[test]
fn retry_on_deleted_queue_ends_job() {
    let mut e = Engine::new();
    e.create_or_update_queue("q", settings(30, 3, vec![])).unwrap();
    let id = e.create_job("q", &request(None), 0).unwrap();
    e.next_queued_job("q", 0).unwrap();
    e.update_job_status(id, Status::Failed, 0).unwrap();
    assert_eq!(e.get_job(id).unwrap().place, Place::Retrying);
    e.delete_queue("q");
    assert_eq!(e.check_retries(0), 1);
    assert_eq!(e.get_job(id).unwrap().place, Place::Ended);
}

#[test]
fn request_overrides_queue_settings() {
    let mut e = Engine::new();
    e.create_or_update_queue("q", settings(30, 1, vec![5])).unwrap();
    let mut r = request(None);
    r.timeout = Some(Duration::from_secs(2));
    r.retry_delays = Some(vec![]);
    let id = e.create_job("q", &r, 0).unwrap();
    let j = e.get_job(id).unwrap();
    assert_eq!(j.settings.timeout.millis, 2_000);
    assert_eq!(j.settings.retries, 1);
    assert!(j.settings.retry_delays.is_empty());
    assert_eq!(j.input, Some("{\"x\":1}".to_string()));
}

#[test]
fn requeued_job_is_listed_after_newer_ones() {
    let mut e = Engine::new();
    e.create_or_update_queue("q", settings(30, 1, vec![])).unwrap();
    let a = e.create_job("q", &request(None), 0).unwrap();
    assert_eq!(e.next_queued_job("q", 0).unwrap().unwrap().id, a);
    let b = e.create_job("q", &request(None), 0).unwrap();
    e.update_job_status(a, Status::Failed, 0).unwrap();
    assert_eq!(e.check_retries(0), 1);
    assert_eq!(e.queue_job_ids("q"), Ok(vec![b, a]));
    assert_eq!(e.queue_size("q"), Ok(2));
    assert_eq!(e.next_queued_job("q", 1).unwrap().unwrap().id, b);
    let again = e.next_queued_job("q", 1).unwrap().unwrap();
    assert_eq!((again.id, again.retries_attempted), (a, 1));
}

#[test]
fn deleted_queue_name_is_gone() {
    let mut e = Engine::new();
    e.create_or_update_queue("q", settings(30, 0, vec![])).unwrap();
    e.create_or_update_queue("r", settings(30, 0, vec![])).unwrap();
    assert!(e.delete_queue("q"));
    assert_eq!(e.queue_names(), vec!["r".to_string()]);
    assert_eq!(e.queue_settings("q").map(|_| ()), Err(OcyError::NoSuchQueue));
}
