use ocypod::config::{parse_expiry_statuses, parse_log_level, Config, LogLevel, RedisConfig, ServerConfig};
use ocypod::handlers;
use ocypod::keys;
use ocypod::engine::OcyError;
use ocypod::models::{after, is_valid_queue_name, retry_delay, resolve_settings, CreateRequest, Duration, Settings, Status};
use ocypod::text::to_decimal;
use ocypod::wal::{wal_dir, wal_path, SysPaths};
use ocypod::duration_text::{parse_duration, render_duration};

#[test]
fn default_config_values() {
    let c = Config::default();
    assert_eq!(c.server.host, "127.0.0.1");
    assert_eq!(c.server.port, 8023);
    assert_eq!(c.server.timeout_check_interval, Duration::from_secs(30));
    assert_eq!(c.server.retry_check_interval, Duration::from_secs(60));
    assert_eq!(c.server.expiry_check_interval, Duration::from_secs(300));
    assert_eq!(
        c.server.expiry_check_statuses,
        vec![Status::Failed, Status::Completed, Status::Cancelled, Status::TimedOut]
    );
    assert_eq!(c.server.log_level, LogLevel::Info);
    assert_eq!(c.redis_url(), "redis://127.0.0.1");
    assert_eq!(c.server_addr(), "127.0.0.1:8023");
    assert!(c.queue.is_none());
}

#[test]
fn server_addr_joins_host_and_port() {
    let c = Config {
        server: ServerConfig { host: "::1".to_string(), port: 1234, ..ServerConfig::default() },
        redis: RedisConfig { url: "redis://example.com:6379".to_string() },
        queue: None,
    };
    assert_eq!(c.server_addr(), "::1:1234");
    assert_eq!(c.redis_url(), "redis://example.com:6379");
}

#[test]
fn shutdown_timeout_is_capped() {
    let mut c = Config::default();
    assert!(c.validate().is_ok());
    c.server.shutdown_timeout = Some(Duration::from_secs(65535));
    assert!(c.validate().is_ok());
    c.server.shutdown_timeout = Some(Duration::from_secs(65536));
    assert!(c.validate().is_err());
}

#[test]
fn log_levels_ignore_case() {
    assert_eq!(parse_log_level("debug"), Ok(LogLevel::Debug));
    assert_eq!(parse_log_level("DeBuG"), Ok(LogLevel::Debug));
    assert_eq!(parse_log_level("info"), Ok(LogLevel::Info));
    assert_eq!(parse_log_level("TRACE"), Ok(LogLevel::Trace));
    assert_eq!(parse_log_level("verbose"), Err("Invalid log level: verbose".to_string()));
}

#[test]
fn expiry_statuses_from_names() {
    let one = vec!["completed".to_string()];
    assert_eq!(parse_expiry_statuses(&one), Some(vec![Status::Completed]));
    let many = vec!["failed".to_string(), "timed_out".to_string()];
    assert_eq!(parse_expiry_statuses(&many), Some(vec![Status::Failed, Status::TimedOut]));
    let bad = vec!["failed".to_string(), "gone".to_string()];
    assert_eq!(parse_expiry_statuses(&bad), None);
}

#[test]
fn status_names_round_trip() {
    for s in [Status::Queued, Status::Running, Status::Failed, Status::TimedOut, Status::Completed, Status::Cancelled] {
        assert_eq!(Status::parse(s.as_str()), Some(s));
    }
    assert_eq!(Status::TimedOut.as_str(), "timed_out");
    assert_eq!(Status::parse("Running"), None);
}

#[test]
fn durations_and_deadlines() {
    assert_eq!(Duration::from_secs(90).millis, 90_000);
    assert_eq!(Duration::from_secs(90).as_secs(), 90);
    assert!(Duration::from_secs(0).is_zero());
    assert_eq!(after(1_000, Duration::from_secs(5)), 6_000);
    assert_eq!(after(u64::MAX - 1, Duration::from_secs(1)), u64::MAX);
}

#[test]
fn retry_delay_reuses_last_entry() {
    let s = Settings {
        timeout: Duration::from_secs(180),
        heartbeat_timeout: Duration::from_secs(90),
        expires_after: Duration::from_secs(5400),
        retries: 4,
        retry_delays: vec![Duration::from_secs(10), Duration::from_secs(60), Duration::from_secs(300)],
    };
    assert_eq!(retry_delay(&s, 0).millis, 10_000);
    assert_eq!(retry_delay(&s, 1).millis, 60_000);
    assert_eq!(retry_delay(&s, 2).millis, 300_000);
    assert_eq!(retry_delay(&s, 3).millis, 300_000);
    let empty = Settings { retry_delays: vec![], ..s };
    assert_eq!(retry_delay(&empty, 0).millis, 0);
}

#[test]
fn resolve_keeps_absent_fields() {
    let q = Settings {
        timeout: Duration::from_secs(600),
        heartbeat_timeout: Duration::from_secs(0),
        expires_after: Duration::from_secs(86400),
        retries: 3,
        retry_delays: vec![Duration::from_secs(10)],
    };
    let r = CreateRequest {
        input: None,
        tags: None,
        timeout: None,
        heartbeat_timeout: Some(Duration::from_secs(5)),
        expires_after: None,
        retries: Some(0),
        retry_delays: None,
    };
    let e = resolve_settings(&q, &r);
    assert_eq!(e.timeout.millis, 600_000);
    assert_eq!(e.heartbeat_timeout.millis, 5_000);
    assert_eq!(e.retries, 0);
    assert_eq!(e.retry_delays, vec![Duration::from_secs(10)]);
}

#[test]
fn queue_name_characters() {
    assert!(is_valid_queue_name("another-queue"));
    assert!(is_valid_queue_name("a_3rd_queue"));
    assert!(!is_valid_queue_name("a/b"));
    assert!(!is_valid_queue_name(""));
}

#[test]
fn decimal_rendering() {
    assert_eq!(to_decimal(0), "0");
    assert_eq!(to_decimal(8023), "8023");
    assert_eq!(to_decimal(u64::MAX), "18446744073709551615");
}

#[test]
fn wal_paths() {
    let p = SysPaths { dir: "/tmp".to_string(), exe: "/opt/bin".to_string() };
    assert_eq!(wal_dir(&p, "q"), "/opt/bin/queues/q");
    assert_eq!(wal_path(&p, "q", 1600000000123), "/opt/bin/queues/q/1600000000123.json");
    assert_ne!(wal_path(&p, "q", 1), wal_path(&p, "q", 10));
}

#[test]
fn reply_codes() {
    assert_eq!(handlers::index(Ok(())).status, 200);
    assert_eq!(handlers::index(Err(OcyError::RedisConnection)).status, 503);
    let created = handlers::create_or_update("q1", Ok(true));
    assert_eq!(created.status, 201);
    assert_eq!(created.location, Some("/queue/q1".to_string()));
    assert_eq!(handlers::create_or_update("q1", Ok(false)).status, 204);
    assert_eq!(handlers::create_or_update("q1", Err(OcyError::BadRequest)).status, 400);
    assert_eq!(handlers::delete(Ok(false)).status, 404);
    assert_eq!(handlers::delete(Ok(true)).status, 204);
    assert_eq!(handlers::settings(Err(OcyError::NoSuchQueue)).status, 404);
    assert_eq!(handlers::size(Err(OcyError::Internal)).status, 500);
    assert_eq!(handlers::job_ids(Ok(())).status, 200);
    let job = handlers::create_job(Ok(17));
    assert_eq!(job.status, 201);
    assert_eq!(job.location, Some("/job/17".to_string()));
    assert_eq!(handlers::create_job(Err(OcyError::NoSuchQueue)).status, 404);
    let empty = handlers::next_job(Ok(false), Some(Duration::from_secs(2)));
    assert_eq!((empty.status, empty.delay_ms), (204, 2_000));
    assert_eq!(handlers::next_job(Ok(true), None).status, 200);
    assert_eq!(handlers::reattempt_job(false, Ok(1)).status, 500);
    assert_eq!(handlers::reattempt_job(true, Ok(1)).status, 201);
    assert_eq!(handlers::error_status(OcyError::Conflict), 409);
    assert_eq!(handlers::error_status(OcyError::NoSuchJob), 404);
}

#[test]
fn human_durations() {
    assert_eq!(parse_duration("3m"), Some(Duration::from_secs(180)));
    assert_eq!(parse_duration("90s"), Some(Duration::from_secs(90)));
    assert_eq!(parse_duration("90m"), Some(Duration::from_secs(5400)));
    assert_eq!(parse_duration("1d"), Some(Duration::from_secs(86400)));
    assert_eq!(parse_duration("250ms"), Some(Duration { millis: 250 }));
    assert_eq!(parse_duration(""), None);
    assert_eq!(parse_duration("s"), None);
    assert_eq!(parse_duration("5x"), None);
    assert_eq!(parse_duration("5"), None);
    assert_eq!(parse_duration("99999999999999999999s"), None);
    assert_eq!(render_duration(Duration::from_secs(30)), "30s");
    assert_eq!(render_duration(Duration::from_secs(300)), "5m");
    assert_eq!(render_duration(Duration::from_secs(3600)), "1h");
    assert_eq!(render_duration(Duration::from_secs(0)), "0s");
    assert_eq!(render_duration(Duration { millis: 1500 }), "1500ms");
    for text in ["30s", "5m", "1h", "1d", "90m", "10ms"] {
        assert_eq!(render_duration(parse_duration(text).unwrap()), text);
    }
}

#[test]
fn storage_keys() {
    assert_eq!(keys::queues_key(), "queues");
    assert_eq!(keys::queue_settings_key("q1"), "queue:q1:settings");
    assert_eq!(keys::queue_jobs_key("q1"), "queue:q1:jobs");
    assert_eq!(keys::running_key(), "jobs:running");
    assert_eq!(keys::failed_key(), "jobs:failed");
    assert_eq!(keys::ended_key(), "jobs:ended");
    assert_eq!(keys::job_key(42), "job:42");
    assert_eq!(keys::job_tags_key(42), "job:42:tags");
    assert_eq!(keys::tag_key("a"), "tag:a");
    assert_eq!(keys::next_id_key(), "job:next_id");
}
