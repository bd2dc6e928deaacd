//! The retry queue and its schedule, under a simulated clock.

use chronicle_worker::config::Config;
use chronicle_worker::error::WorkerError;
use chronicle_worker::event_loop::{handle_retry, Completion, EventLoop};
use chronicle_worker::ids::SessionId;
use chronicle_worker::retry::{RetryEntry, RetryQueue};
use chronicle_worker::session_runner::RunnerMode;
use chronicle_worker::time::{Duration, Instant};

const SECOND: u128 = 1_000_000_000;

fn secs(n: u64) -> Duration {
    Duration::from_secs(n)
}

fn at(n: u128) -> Instant {
    Instant { nanos: n * SECOND }
}

fn new_session() -> SessionId {
    SessionId::new(uuid::Uuid::new_v4().as_u128())
}

/// Sleep as long as the queue asks for, until an entry comes out.
fn wait_for_next(q: &mut RetryQueue, now: &mut Instant) -> RetryEntry {
    loop {
        now.nanos += q.sleep_for(*now).nanos;
        if let Some(e) = q.next_ready(*now) {
            return e;
        }
    }
}

fn config(retry_backoff_ms: &str) -> Config {
    Config {
        data_api_url: "http://127.0.0.1:8001".to_string(),
        shared_secret: Some("x".to_string()),
        legacy_shared_secret: None,
        poll_interval_secs: 10,
        whisper_url: "http://localhost:8300/v1/audio/transcriptions".to_string(),
        whisper_model: "Systran/faster-whisper-large-v3".to_string(),
        vad_model_path: "models/silero_vad_v6.onnx".to_string(),
        vad_min_speech_ms: 250,
        vad_min_silence_ms: 800,
        vad_pad_ms: 100,
        admin_enabled: false,
        retry_backoff_ms: retry_backoff_ms.to_string(),
        log_level: "info".to_string(),
        scene_llm_url: None,
        scene_llm_model: "qwen2.5:7b".to_string(),
        gm_speaker_id: None,
    }
}

#[test]
fn schedule_spacing_matches_config() {
    let schedule = vec![secs(30), secs(120), secs(600)];
    let mut q = RetryQueue::new(schedule);
    let session = new_session();
    let mut now = at(1_000);

    // Attempt 1 -> 30s
    let e1 = q.schedule(session, 1, now).expect("attempt 1 queues");
    assert!(e1.due_at.saturating_duration_since(now).nanos <= secs(30).nanos);

    let start = now;
    let ready = wait_for_next(&mut q, &mut now);
    assert_eq!(ready.session, session);
    assert_eq!(ready.attempt, 1);
    let waited = ready.due_at.saturating_duration_since(start).nanos;
    assert!(waited >= secs(29).nanos && waited <= secs(31).nanos);

    // Attempt 2 -> 2m
    let _ = q.schedule(session, 2, now).expect("attempt 2 queues");
    let before = now;
    let ready2 = wait_for_next(&mut q, &mut now);
    assert_eq!(ready2.attempt, 2);
    assert!(ready2.due_at.saturating_duration_since(before).nanos >= secs(119).nanos);
    assert!(ready2.due_at.saturating_duration_since(before).nanos <= secs(121).nanos);

    // Attempt 3 -> 10m
    let _ = q.schedule(session, 3, now).expect("attempt 3 queues");
    let before = now;
    let ready3 = wait_for_next(&mut q, &mut now);
    assert_eq!(ready3.attempt, 3);
    assert!(ready3.due_at.saturating_duration_since(before).nanos >= secs(599).nanos);
    assert!(ready3.due_at.saturating_duration_since(before).nanos <= secs(601).nanos);

    // Attempt 4 -> nothing (schedule exhausted)
    assert!(q.schedule(session, 4, now).is_none());
}

#[test]
fn empty_queue_waits_forever_until_pushed() {
    let mut q = RetryQueue::new(vec![secs(30)]);
    let session = new_session();
    let mut now = at(0);

    // Advance a minute with nothing in the queue — should still be pending.
    assert!(q.sleep_for(now).nanos > secs(60).nanos);
    now.nanos += secs(60).nanos;
    assert!(q.next_ready(now).is_none(), "next_ready returned with an empty queue");

    // Now schedule — should fire in 30s.
    q.schedule(session, 1, now).unwrap();
    now.nanos += secs(31).nanos;
    let e = q.next_ready(now).unwrap();
    assert_eq!(e.session, session);
}

#[test]
fn spacing_is_30s_2m_10m() {
    let schedule = vec![secs(30), secs(120), secs(600)];
    let mut q = RetryQueue::new(schedule);
    let session = new_session();
    let mut now = at(5);

    // --- Attempt 1: 30s ---
    q.schedule(session, 1, now).expect("attempt 1 queues");
    let before = now;
    let e1 = wait_for_next(&mut q, &mut now);
    let elapsed = e1.due_at.nanos - before.nanos;
    assert_eq!(e1.attempt, 1);
    assert!(
        elapsed >= secs(29).nanos && elapsed <= secs(31).nanos,
        "attempt 1 spacing: expected ~30s, got {elapsed:?}"
    );

    // --- Attempt 2: 2 minutes ---
    q.schedule(session, 2, now).expect("attempt 2 queues");
    let before = now;
    let e2 = wait_for_next(&mut q, &mut now);
    let elapsed = e2.due_at.nanos - before.nanos;
    assert_eq!(e2.attempt, 2);
    assert!(
        elapsed >= secs(119).nanos && elapsed <= secs(121).nanos,
        "attempt 2 spacing: expected ~2min, got {elapsed:?}"
    );

    // --- Attempt 3: 10 minutes ---
    q.schedule(session, 3, now).expect("attempt 3 queues");
    let before = now;
    let e3 = wait_for_next(&mut q, &mut now);
    let elapsed = e3.due_at.nanos - before.nanos;
    assert_eq!(e3.attempt, 3);
    assert!(
        elapsed >= secs(599).nanos && elapsed <= secs(601).nanos,
        "attempt 3 spacing: expected ~10min, got {elapsed:?}"
    );

    // --- Attempt 4: schedule exhausted ---
    assert!(
        q.schedule(session, 4, now).is_none(),
        "attempt 4 should return None (schedule exhausted)"
    );
}

#[test]
fn custom_csv_schedule_via_config_parses() {
    let cfg = config("1000,2000,3000,4000");
    let schedule = cfg.retry_backoffs().expect("valid schedule");
    assert_eq!(
        schedule,
        vec![
            Duration::from_millis(1000),
            Duration::from_millis(2000),
            Duration::from_millis(3000),
            Duration::from_millis(4000),
        ]
    );
}

fn message(r: Result<Vec<Duration>, WorkerError>) -> String {
    r.unwrap_err().message()
}

#[test]
fn schedule_text_is_trimmed_and_blanks_are_skipped() {
    let cfg = config(" 30000,\t120000 ,, +600000,\u{2003}");
    assert_eq!(
        cfg.retry_backoffs().unwrap(),
        vec![secs(30), secs(120), secs(600)]
    );
    assert_eq!(config("").retry_backoffs().unwrap(), vec![]);
    assert_eq!(
        config("18446744073709551615").retry_backoffs().unwrap(),
        vec![Duration { nanos: 18446744073709551615u128 * 1_000_000 }]
    );
}

#[test]
fn printed_numbers_read_back() {
    for n in [0u64, 7, 10, 999, 1_000_000, 18_446_744_073] {
        let parsed = config(&n.to_string()).retry_backoffs().unwrap();
        assert_eq!(parsed, vec![Duration::from_millis(n)]);
    }
}

#[test]
fn first_bad_number_decides_the_error() {
    let bad = "config: RETRY_BACKOFF_MS: invalid digit found in string";
    let large = "config: RETRY_BACKOFF_MS: number too large to fit in target type";
    assert_eq!(message(config("10,x").retry_backoffs()), bad);
    assert_eq!(message(config("-1").retry_backoffs()), bad);
    assert_eq!(message(config("+").retry_backoffs()), bad);
    assert_eq!(message(config("1 2").retry_backoffs()), bad);
    assert_eq!(message(config("18446744073709551616").retry_backoffs()), large);
    assert_eq!(message(config("99999999999999999999999,x").retry_backoffs()), large);
    assert_eq!(message(config("x,99999999999999999999999").retry_backoffs()), bad);
}

#[test]
fn secret_prefers_the_current_name() {
    let mut cfg = config("1");
    cfg.legacy_shared_secret = Some("old".to_string());
    assert_eq!(cfg.resolved_shared_secret().unwrap(), "x");
    cfg.shared_secret = None;
    assert_eq!(cfg.resolved_shared_secret().unwrap(), "old");
    cfg.legacy_shared_secret = None;
    assert_eq!(
        cfg.resolved_shared_secret().unwrap_err().message(),
        "config: SHARED_SECRET (or DATA_API_SHARED_SECRET) must be set"
    );
}

#[test]
fn poll_interval_is_in_seconds() {
    assert_eq!(config("1").poll_interval(), Duration { nanos: 10 * SECOND });
}

#[test]
fn entries_come_out_by_due_time() {
    let mut q = RetryQueue::new(vec![secs(10), secs(5), secs(1)]);
    let (a, b, c) = (SessionId(1), SessionId(2), SessionId(3));
    q.schedule(a, 1, at(0)).unwrap();
    q.schedule(b, 2, at(1)).unwrap();
    q.schedule(c, 3, at(2)).unwrap();
    assert_eq!(q.len(), 3);
    assert_eq!(q.sleep_for(at(0)).nanos, 3 * SECOND);
    assert_eq!(q.sleep_for(at(9)).nanos, 0);
    assert!(q.next_ready(at(2)).is_none());
    assert_eq!(q.next_ready(at(100)).unwrap().session, c);
    assert_eq!(q.next_ready(at(100)).unwrap().session, b);
    assert_eq!(q.next_ready(at(100)).unwrap().session, a);
    assert!(q.is_empty());
    assert!(q.next_ready(at(100)).is_none());
    assert_eq!(q.sleep_for(at(100)).nanos, 24 * 3600 * SECOND);
}

#[test]
fn earlier_entries_are_greater() {
    let e = |n: u128| RetryEntry { session: SessionId(n), attempt: 1, due_at: at(n) };
    assert!(e(1) > e(2));
    assert!(e(2) < e(1));
    assert!(e(2) == RetryEntry { session: SessionId(9), attempt: 3, due_at: at(2) });
}

#[test]
fn empty_schedule_never_retries() {
    let mut q = RetryQueue::new(vec![]);
    assert_eq!(q.max_attempts(), 0);
    assert!(q.schedule(SessionId(1), 0, at(0)).is_none());
    assert!(q.schedule(SessionId(1), 1, at(0)).is_none());
    assert!(q.is_empty());
}

#[test]
fn failing_session_uses_every_backoff_once() {
    let retry = RetryQueue::new(vec![secs(30), secs(120), secs(600)]);
    assert_eq!(retry.max_attempts(), 3);
    let mut events: EventLoop<()> = EventLoop::new(retry);
    let session = new_session();
    let failure = Err(WorkerError::Api("down".to_string()));

    let mut attempt = 1;
    let mut waits = Vec::new();
    let mut now = at(0);
    loop {
        events.spawn_runner(session, ());
        match events.on_runner_complete(session, attempt, now, &failure) {
            Completion::Retry(e) => {
                assert_eq!(e.attempt, attempt);
                waits.push(e.due_at.saturating_duration_since(now).nanos / SECOND);
                assert!(events.next_retry(now).is_none());
                now.nanos += events.retry_sleep(now).nanos;
                let due = events.next_retry(now).unwrap();
                let run = handle_retry(due);
                assert!(run.mode == RunnerMode::OneShot);
                assert_eq!(run.session, session);
                attempt = run.attempt;
            }
            Completion::Exhausted => break,
            other => panic!("unexpected {other:?}"),
        }
    }
    assert_eq!(waits, vec![30, 120, 600]);
    assert_eq!(attempt, 4);
}
