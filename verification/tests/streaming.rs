//! Streaming of chunks into the pipeline.

use chronicle_worker::error::WorkerError;
use chronicle_worker::ids::{ChunkSeq, PseudoId, SessionId};
use chronicle_worker::session_runner::{RunnerCmd, StreamingRunner, StreamingStep};
use chronicle_worker::worker::{
    falls_back_to_batch, logged_url, ActiveSessions, LoopAction, LoopEvent, WorkerLoop, WsAction,
    WsEvent,
};
use chronicle_worker::job::JobOutcome;
use chronicle_worker::pipeline::TranscriptSegment;
use chronicle_worker::posting::{PostingEnd, PostingStep, SegmentPosting};
use chronicle_worker::ws::Attempt;

fn pseudo(s: &str) -> PseudoId {
    PseudoId::new(s.to_string())
}

/// One stereo frame whose mono sample is `v`.
fn frame(v: i16) -> Vec<u8> {
    let b = v.to_le_bytes();
    vec![b[0], b[1], b[0], b[1]]
}

fn ingest(r: &mut StreamingRunner, who: &str, seq: u32, raw: Vec<u8>) -> Vec<(u32, Vec<i16>)> {
    r.ingest_one(&pseudo(who), ChunkSeq(seq), Ok(raw))
        .unwrap()
        .into_iter()
        .map(|c| (c.seq, c.samples))
        .collect()
}

fn announce(who: &str, seq: u32) -> Option<RunnerCmd> {
    Some(RunnerCmd::IngestChunk { pseudo: pseudo(who), seq: ChunkSeq(seq) })
}

#[test]
fn early_chunks_wait_for_the_missing_one() {
    let mut r = StreamingRunner::new(SessionId(1));
    assert_eq!(ingest(&mut r, "a", 2, frame(30)), vec![]);
    assert_eq!(ingest(&mut r, "a", 1, frame(20)), vec![]);
    assert_eq!(ingest(&mut r, "b", 0, frame(99)), vec![(0, vec![99])]);
    assert_eq!(
        ingest(&mut r, "a", 0, frame(10)),
        vec![(0, vec![10]), (1, vec![20]), (2, vec![30])]
    );
    assert_eq!(ingest(&mut r, "a", 3, frame(40)), vec![(3, vec![40])]);
}

#[test]
fn repeated_chunks_are_not_downloaded_again() {
    let mut r = StreamingRunner::new(SessionId(1));
    assert!(matches!(
        r.run_streaming(announce("a", 0)),
        StreamingStep::Download { pseudo, seq } if pseudo.as_str() == "a" && seq.as_u32() == 0
    ));
    assert_eq!(ingest(&mut r, "a", 0, frame(1)).len(), 1);
    assert!(matches!(r.run_streaming(announce("a", 0)), StreamingStep::Wait));
    assert!(matches!(r.run_streaming(announce("b", 0)), StreamingStep::Download { .. }));
    // Held back, but not handed on yet.
    assert!(ingest(&mut r, "a", 5, frame(1)).is_empty());
    assert!(matches!(r.run_streaming(announce("a", 5)), StreamingStep::Download { .. }));
}

#[test]
fn chunks_without_samples_are_passed_over() {
    let mut r = StreamingRunner::new(SessionId(1));
    assert_eq!(ingest(&mut r, "a", 0, vec![1, 2, 3]), vec![]);
    assert!(matches!(r.run_streaming(announce("a", 0)), StreamingStep::Wait));
    assert_eq!(ingest(&mut r, "a", 1, frame(5)), vec![(1, vec![5])]);
}

#[test]
fn failed_download_can_arrive_later() {
    let mut r = StreamingRunner::new(SessionId(1));
    let failed = r.ingest_one(
        &pseudo("a"),
        ChunkSeq(0),
        Err(WorkerError::Api("chunk 404 Not Found: ".to_string())),
    );
    assert!(failed.is_err());
    assert!(matches!(r.run_streaming(announce("a", 0)), StreamingStep::Download { .. }));
    assert_eq!(ingest(&mut r, "a", 0, frame(7)), vec![(0, vec![7])]);
}

#[test]
fn commands_end_a_runner() {
    let r = StreamingRunner::new(SessionId(1));
    assert!(matches!(r.run_streaming(Some(RunnerCmd::Finalize)), StreamingStep::Finalize));
    assert!(matches!(r.run_streaming(Some(RunnerCmd::Abort)), StreamingStep::Stop));
    assert!(matches!(r.run_streaming(None), StreamingStep::Stop));
}

/// The end of posting `n` segments, which make up one batch.
fn posted(n: u32, accepted: bool) -> PostingEnd {
    let segments = (0..n)
        .map(|i| TranscriptSegment {
            segment_index: i,
            speaker_pseudo_id: "a".to_string(),
            text: "t".to_string(),
            original_text: "t".to_string(),
            beat_id: None,
            chunk_group: None,
            excluded: false,
            exclude_reason: None,
            timing: (),
        })
        .collect();
    let reply = if accepted { Ok(()) } else { Err(WorkerError::Api("500: busy".to_string())) };
    match SegmentPosting::start(vec![Ok(segments)]) {
        PostingStep::Send(posting, _) => match posting.step(reply) {
            PostingStep::End(end) => end,
            PostingStep::Send(..) => panic!("one batch is enough"),
        },
        PostingStep::End(end) => end,
    }
}

fn event(name: &str) -> WsEvent {
    WsEvent {
        event: name.to_string(),
        session_id: Some(SessionId(1)),
        status: None,
        pseudo_id: None,
        chunk_seq: None,
        size_bytes: None,
    }
}

fn uploaded() -> WsEvent {
    WsEvent { status: Some("uploaded".to_string()), ..event("session_status_changed") }
}

#[test]
fn chunk_events_need_all_their_fields() {
    let mut active = ActiveSessions::new();
    let full = WsEvent {
        pseudo_id: Some("a".to_string()),
        chunk_seq: Some(4),
        ..event("chunk_uploaded")
    };
    assert!(matches!(
        active.handle_ws_event(&full),
        WsAction::Download { session: SessionId(1), pseudo, seq: ChunkSeq(4) }
            if pseudo.as_str() == "a"
    ));
    assert!(matches!(active.handle_ws_event(&event("chunk_uploaded")), WsAction::Ignore));
    assert!(matches!(active.handle_ws_event(&event("segment_added")), WsAction::Ignore));
    let other = WsEvent {
        status: Some("transcribed".to_string()),
        ..event("session_status_changed")
    };
    assert!(matches!(active.handle_ws_event(&other), WsAction::Ignore));
    let nameless = WsEvent { session_id: None, ..uploaded() };
    assert!(matches!(active.handle_ws_event(&nameless), WsAction::Ignore));
}

#[test]
fn streamed_sessions_are_finalized_and_others_run_from_the_queue() {
    let mut active = ActiveSessions::new();
    assert!(matches!(active.handle_ws_event(&uploaded()), WsAction::RunBatch));

    let first = active
        .handle_chunk_uploaded(SessionId(1), &pseudo("a"), ChunkSeq(0), Ok(frame(3)))
        .unwrap();
    assert!(first.opened);
    assert_eq!(first.ready.len(), 1);
    active.on_posted(SessionId(1), &posted(2, true));
    active.on_posted(SessionId(1), &posted(4, false));
    assert_eq!(active.posted_segment_count(SessionId(1)), 2);
    let again = active
        .handle_chunk_uploaded(SessionId(1), &pseudo("a"), ChunkSeq(0), Ok(frame(3)))
        .unwrap();
    assert!(!again.opened);
    assert!(again.ready.is_empty());
    active.on_posted(SessionId(1), &posted(3, true));
    assert_eq!(active.posted_segment_count(SessionId(1)), 5);
    assert_eq!(active.posted_segment_count(SessionId(2)), 0);

    assert!(matches!(
        active.handle_ws_event(&uploaded()),
        WsAction::Finalize { session: SessionId(1), streamed: 5 }
    ));
    assert!(matches!(active.handle_ws_event(&uploaded()), WsAction::RunBatch));
}

#[test]
fn useless_downloads_open_no_stream() {
    let mut active = ActiveSessions::new();
    let silent = active
        .handle_chunk_uploaded(SessionId(1), &pseudo("a"), ChunkSeq(0), Ok(vec![0, 0, 0]))
        .unwrap();
    assert!(!silent.opened && silent.ready.is_empty());
    let failed = active.handle_chunk_uploaded(
        SessionId(1),
        &pseudo("a"),
        ChunkSeq(0),
        Err(WorkerError::Api("x".to_string())),
    );
    assert!(failed.is_err());
    assert!(matches!(active.handle_ws_event(&uploaded()), WsAction::RunBatch));
}

#[test]
fn failed_finalize_falls_back() {
    assert!(falls_back_to_batch(&Err(WorkerError::Pipeline("x".to_string()))));
    assert!(!falls_back_to_batch(&Ok(JobOutcome::Transcribed(SessionId(1)))));
}

#[test]
fn log_shows_no_query() {
    assert_eq!(logged_url("ws://h/ws?token=abc?d"), "ws://h/ws");
    assert_eq!(logged_url("ws://h/ws"), "ws://h/ws");
}

fn nap(a: LoopAction) -> u128 {
    match a {
        LoopAction::Sleep(d) => d.nanos / 1_000_000_000,
        _ => panic!("expected a pause"),
    }
}

#[test]
fn batch_loop_drains_on_connect_and_on_disconnect() {
    let mut l = WorkerLoop::new();
    assert_eq!(nap(l.run(LoopEvent::Attempted(Attempt::Failed))), 1);
    assert!(matches!(l.run(LoopEvent::Woke), LoopAction::Connect));
    assert_eq!(nap(l.run(LoopEvent::Attempted(Attempt::Failed))), 2);
    assert!(matches!(l.run(LoopEvent::Woke), LoopAction::Connect));
    assert!(matches!(l.run(LoopEvent::Attempted(Attempt::Connected)), LoopAction::Subscribe));
    assert!(matches!(l.run(LoopEvent::Subscribed(false)), LoopAction::Connect));
    assert!(matches!(l.run(LoopEvent::Attempted(Attempt::Connected)), LoopAction::Subscribe));
    assert!(matches!(l.run(LoopEvent::Subscribed(true)), LoopAction::Drain));
    assert!(matches!(l.run(LoopEvent::Drained), LoopAction::Read));
    assert!(matches!(l.run(LoopEvent::Text(None)), LoopAction::Read));
    assert!(matches!(l.run(LoopEvent::OtherFrame), LoopAction::Read));
    assert!(matches!(
        l.run(LoopEvent::Text(Some(uploaded()))),
        LoopAction::Handle(e) if e.event == "session_status_changed"
    ));
    assert!(matches!(l.run(LoopEvent::Handled), LoopAction::Read));
    assert!(matches!(l.run(LoopEvent::Ended), LoopAction::Drain));
    assert_eq!(nap(l.run(LoopEvent::Drained)), 1);
}

#[test]
fn batch_loop_renews_a_refused_token() {
    let mut l = WorkerLoop::new();
    let refused = LoopEvent::Attempted(Attempt::Unauthorized);
    assert!(matches!(l.run(refused), LoopAction::Renew));
    assert_eq!(nap(l.run(LoopEvent::Renewed)), 1);
    assert!(matches!(l.run(LoopEvent::Woke), LoopAction::Connect));
}

#[test]
fn early_chunk_of_a_fresh_session_is_held_back() {
    let mut active = ActiveSessions::new();
    let s = SessionId(1);
    let who = pseudo("aabbccdd");
    let early = active
        .handle_chunk_uploaded(s, &who, ChunkSeq(1), Ok(vec![0x00, 0xC0, 0x00, 0xC0]))
        .unwrap();
    assert!(early.opened && early.ready.is_empty());
    let expected = active
        .handle_chunk_uploaded(s, &who, ChunkSeq(0), Ok(vec![0x00, 0x40, 0x00, 0x40]))
        .unwrap();
    let fed: Vec<(u32, Vec<i16>)> =
        expected.ready.into_iter().map(|c| (c.seq, c.samples)).collect();
    assert_eq!(fed, vec![(0, vec![0x4000]), (1, vec![-0x4000])]);
}
