//! The event bus, the event loop and the admin surface.

use chronicle_worker::admin::{admin_reply, rerun_timeout, status_timeout, AdminCmd, AdminReply};
use chronicle_worker::api_client::SessionSummary;
use chronicle_worker::error::WorkerError;
use chronicle_worker::event_loop::{
    heartbeat_interval, startup_reconcile, BusAction, Completion, EventLoop, Spawn,
};
use chronicle_worker::ids::{ChunkSeq, PseudoId, SessionId};
use chronicle_worker::retry::RetryQueue;
use chronicle_worker::session_runner::{RunnerCmd, RunnerMode};
use chronicle_worker::time::{Duration, Instant};
use chronicle_worker::ws::{
    failed_attempt, redact_token, subscription, Attempt, Backoff, BusEvent, BusLink, LinkAction,
    LinkEvent, RawEvent,
};

fn events() -> EventLoop<&'static str> {
    EventLoop::new(RetryQueue::new(vec![Duration::from_secs(30)]))
}

fn rows(ids: &[u128]) -> Result<Vec<SessionSummary>, WorkerError> {
    Ok(ids
        .iter()
        .map(|i| SessionSummary { id: SessionId(*i), status: "uploaded".to_string() })
        .collect())
}

fn down() -> Result<Vec<SessionSummary>, WorkerError> {
    Err(WorkerError::Api("500: down".to_string()))
}

fn sessions(list: &[Spawn]) -> Vec<u128> {
    assert!(list.iter().all(|s| s.attempt == 1 && s.mode == RunnerMode::OneShot));
    list.iter().map(|s| s.session.as_uuid()).collect()
}

fn chunk_event(session: u128, seq: u32) -> BusEvent {
    BusEvent::ChunkUploaded {
        session: SessionId(session),
        pseudo: PseudoId::new("a".to_string()),
        seq: ChunkSeq(seq),
    }
}

#[test]
fn startup_runs_orphans_before_waiting_sessions() {
    assert_eq!(sessions(&startup_reconcile(rows(&[2, 1]), rows(&[3]))), vec![2, 1, 3]);
    assert_eq!(sessions(&startup_reconcile(down(), rows(&[3]))), vec![3]);
    assert_eq!(sessions(&startup_reconcile(rows(&[2]), down())), vec![2]);
}

#[test]
fn poll_starts_what_is_not_running() {
    let mut l = events();
    l.spawn_runner(SessionId(2), "runner");
    assert_eq!(sessions(&l.poll_reconcile(rows(&[1, 2, 3]))), vec![1, 3]);
    assert!(l.poll_reconcile(down()).is_empty());
}

#[test]
fn uploaded_session_is_finalized_or_run() {
    let mut l = events();
    match l.handle_ws_event(BusEvent::SessionUploaded(SessionId(1))) {
        BusAction::Start(s) => assert_eq!(sessions(&[s]), vec![1]),
        _ => panic!("a session without a runner is run"),
    }
    l.spawn_runner(SessionId(1), "runner");
    assert_eq!(l.runner(SessionId(1)), Some(&"runner"));
    match l.handle_ws_event(BusEvent::SessionUploaded(SessionId(1))) {
        BusAction::Tell { session, cmd: RunnerCmd::Finalize, fallback: Some(s) } => {
            assert_eq!(session, SessionId(1));
            assert_eq!(sessions(&[s]), vec![1]);
        }
        _ => panic!("a running session is finalized"),
    }
}

#[test]
fn first_chunk_starts_a_streaming_runner() {
    let mut l = events();
    match l.handle_ws_event(chunk_event(4, 0)) {
        BusAction::StartAndTell { spawn, cmd: RunnerCmd::IngestChunk { pseudo, seq } } => {
            assert!(spawn.mode == RunnerMode::Streaming && spawn.attempt == 1);
            assert_eq!((pseudo.as_str(), seq.as_u32()), ("a", 0));
        }
        _ => panic!("the first chunk starts a runner"),
    }
    l.spawn_runner(SessionId(4), "runner");
    match l.handle_ws_event(chunk_event(4, 1)) {
        BusAction::Tell { cmd: RunnerCmd::IngestChunk { seq, .. }, fallback: None, .. } => {
            assert_eq!(seq.as_u32(), 1);
        }
        _ => panic!("later chunks go to the runner"),
    }
}

#[test]
fn other_events_need_no_action() {
    let l = events();
    let status = BusEvent::SessionStatus {
        session: SessionId(1),
        status: "recording".to_string(),
    };
    assert!(matches!(l.handle_ws_event(status), BusAction::Nothing));
    assert!(matches!(l.handle_ws_event(BusEvent::Disconnected), BusAction::Nothing));
}

#[test]
fn outcome_of_a_runner_decides_what_follows() {
    let mut l = events();
    let id = SessionId(1);
    let mut end = |outcome: Result<(), WorkerError>| {
        l.spawn_runner(id, "runner");
        let c = l.on_runner_complete(id, 1, Instant { nanos: 0 }, &outcome);
        assert!(l.runner(id).is_none());
        c
    };
    let retried = |c: Completion| match c {
        Completion::Retry(e) => {
            assert_eq!((e.session, e.attempt), (id, 1));
            assert_eq!(e.due_at.nanos, 30_000_000_000);
            true
        }
        _ => false,
    };
    assert!(matches!(end(Ok(())), Completion::Done));
    assert!(retried(end(Err(WorkerError::Api("x".to_string())))));
    assert!(retried(end(Err(WorkerError::Pipeline("x".to_string())))));
    assert!(retried(end(Err(WorkerError::WebSocket("x".to_string())))));
    assert!(matches!(end(Err(WorkerError::ClaimLost(id))), Completion::Dropped));
    assert!(matches!(end(Err(WorkerError::NotFound(id))), Completion::Dropped));
    assert!(matches!(end(Err(WorkerError::Admin("x".to_string()))), Completion::Dropped));
    assert!(matches!(end(Err(WorkerError::Config("x".to_string()))), Completion::Dropped));
}

#[test]
fn failure_beyond_the_schedule_is_not_repeated() {
    let mut l = events();
    let failed = Err(WorkerError::Api("x".to_string()));
    let c = l.on_runner_complete(SessionId(1), 2, Instant { nanos: 0 }, &failed);
    assert!(matches!(c, Completion::Exhausted));
    assert!(l.next_retry(Instant { nanos: u128::MAX }).is_none());
}

#[test]
fn rerun_aborts_clears_and_starts() {
    let mut l = events();
    l.spawn_runner(SessionId(1), "old");
    l.spawn_runner(SessionId(2), "other");
    assert_eq!(l.begin_rerun(SessionId(1)), Some("old"));
    assert_eq!(l.begin_rerun(SessionId(1)), None);
    assert_eq!(l.active_sessions(), vec![2]);
    let (spawn, queued) = EventLoop::<&str>::finish_rerun(SessionId(1), &Ok(()));
    assert!(queued);
    assert_eq!(sessions(&[spawn.unwrap()]), vec![1]);
    let failed = Err(WorkerError::Api("x".to_string()));
    let (spawn, queued) = EventLoop::<&str>::finish_rerun(SessionId(1), &failed);
    assert!(!queued && spawn.is_none());
}

#[test]
fn status_lists_each_session_once() {
    let mut l = events();
    for i in [5u128, 3, 9, 3] {
        l.spawn_runner(SessionId(i), "runner");
    }
    let mut ids = l.active_sessions();
    ids.sort();
    assert_eq!(ids, vec![3, 5, 9]);
    let mut s = l.status(Some(77u64), "0.1.0");
    s.active_sessions.sort();
    assert_eq!(s.active_sessions, vec![3, 5, 9]);
    assert_eq!((s.last_heartbeat_at, s.version), (Some(77), "0.1.0"));
    // No heartbeat has succeeded yet.
    assert_eq!(l.status(None::<u64>, "0.1.0").last_heartbeat_at, None);
}

#[test]
fn admin_answers() {
    let answered = admin_reply(true, Some(1));
    assert_eq!((answered.status(), answered.excuse()), (200, None));
    assert!(matches!(answered, AdminReply::Answer(1)));
    let gone = admin_reply::<u8>(false, None);
    assert_eq!((gone.status(), gone.excuse()), (503, Some("event loop gone")));
    let late = admin_reply::<u8>(true, None);
    assert_eq!((late.status(), late.excuse()), (503, Some("timeout")));
    assert_eq!(status_timeout(), Duration::from_secs(2));
    assert_eq!(rerun_timeout(), Duration::from_secs(5));
    assert_eq!(heartbeat_interval(), Duration::from_secs(30));
    let cmd: AdminCmd<u8, u8> = AdminCmd::Rerun { session: SessionId(1), queued: 7 };
    assert!(matches!(cmd, AdminCmd::Rerun { queued: 7, .. }));
}

fn status_event(status: &str) -> RawEvent {
    RawEvent::SessionStateChanged { session_id: 1, status: status.to_string() }
}

#[test]
fn raw_events_are_classified() {
    assert!(matches!(
        status_event("uploaded").classify(),
        BusEvent::SessionUploaded(SessionId(1))
    ));
    match status_event("Uploaded").classify() {
        BusEvent::SessionStatus { session, status } => {
            assert_eq!((session, status.as_str()), (SessionId(1), "Uploaded"));
        }
        other => panic!("unexpected {other:?}"),
    }
    let raw = RawEvent::ChunkUploaded { session_id: 2, pseudo_id: "p".to_string(), seq: 9 };
    match raw.classify() {
        BusEvent::ChunkUploaded { session, pseudo, seq } => {
            assert_eq!((session, pseudo.as_str(), seq.as_u32()), (SessionId(2), "p", 9));
        }
        other => panic!("unexpected {other:?}"),
    }
}

#[test]
fn tokens_are_blanked_out() {
    assert_eq!(redact_token("ws://h/ws?token=abc"), "ws://h/ws?token=REDACTED");
    assert_eq!(redact_token("ws://h/ws?token=a&token=b"), "ws://h/ws?token=REDACTED");
    assert_eq!(redact_token("ws://h/ws"), "ws://h/ws");
    assert_eq!(redact_token("token="), "token=REDACTED");
}

#[test]
fn waits_double_up_to_thirty_seconds() {
    let mut b = Backoff::new();
    let waits: Vec<u128> = (0..7).map(|_| b.wait().nanos / 1_000_000_000).collect();
    assert_eq!(waits, vec![1, 2, 4, 8, 16, 30, 30]);
    b.reset();
    assert_eq!(b.wait(), Duration::from_secs(1));
}

fn pause(a: LinkAction) -> u128 {
    match a {
        LinkAction::Reconnect(d) => d.nanos / 1_000_000_000,
        _ => panic!("expected a new attempt"),
    }
}

const CONNECTED: LinkEvent = LinkEvent::Attempted(Attempt::Connected);
const FAILED: LinkEvent = LinkEvent::Attempted(Attempt::Failed);
const SENT: LinkEvent = LinkEvent::Subscribed { sent: true, listening: true };

#[test]
fn link_reads_and_reconnects() {
    let mut link = BusLink::new();
    assert_eq!(pause(link.on_event(FAILED)), 1);
    assert_eq!(pause(link.on_event(FAILED)), 2);
    assert!(matches!(link.on_event(CONNECTED), LinkAction::Subscribe));
    let unsent = LinkEvent::Subscribed { sent: false, listening: true };
    assert_eq!(pause(link.on_event(unsent)), 1);
    assert!(matches!(link.on_event(CONNECTED), LinkAction::Subscribe));
    assert!(matches!(link.on_event(SENT), LinkAction::Read));
    assert!(matches!(link.on_event(LinkEvent::OtherFrame), LinkAction::Read));
    assert!(matches!(link.on_event(LinkEvent::Text(None)), LinkAction::Read));
    assert!(matches!(
        link.on_event(LinkEvent::Text(Some(status_event("uploaded")))),
        LinkAction::Emit(BusEvent::SessionUploaded(SessionId(1)))
    ));
    assert!(matches!(link.on_event(LinkEvent::Delivered(true)), LinkAction::Read));
    assert_eq!(pause(link.on_event(LinkEvent::Ended { listening: true })), 1);
    assert_eq!(subscription(), "{\"subscribe\":\"sessions\"}");
}

#[test]
fn link_stops_when_nobody_listens() {
    let mut link = BusLink::new();
    link.on_event(CONNECTED);
    link.on_event(SENT);
    link.on_event(LinkEvent::Text(Some(status_event("uploaded"))));
    assert!(matches!(link.on_event(LinkEvent::Delivered(false)), LinkAction::Stop));
}

#[test]
fn link_stops_when_a_connection_ends_unheard() {
    let mut link = BusLink::new();
    link.on_event(CONNECTED);
    link.on_event(SENT);
    assert!(matches!(link.on_event(LinkEvent::Ended { listening: false }), LinkAction::Stop));

    let mut link = BusLink::new();
    link.on_event(CONNECTED);
    let unsent = LinkEvent::Subscribed { sent: false, listening: false };
    assert!(matches!(link.on_event(unsent), LinkAction::Stop));
}

#[test]
fn refused_token_is_renewed_before_the_next_attempt() {
    assert_eq!(failed_attempt(Some(401)), Attempt::Unauthorized);
    assert_eq!(failed_attempt(Some(403)), Attempt::Failed);
    assert_eq!(failed_attempt(None), Attempt::Failed);
    let mut link = BusLink::new();
    assert_eq!(pause(link.on_event(FAILED)), 1);
    let refused = LinkEvent::Attempted(failed_attempt(Some(401)));
    assert!(matches!(link.on_event(refused), LinkAction::Renew));
    assert_eq!(pause(link.on_event(LinkEvent::Renewed)), 2);
    assert!(matches!(link.on_event(CONNECTED), LinkAction::Subscribe));
}
