//! One session's transcription, from its claim to its last mark.

use chronicle_worker::api_client::{ChunkInfo, Participant, SessionSummary};
use chronicle_worker::error::WorkerError;
use chronicle_worker::ids::SessionId;
use chronicle_worker::job::{JobOutcome, Reply, Request, SessionJob, SessionStatus};
use chronicle_worker::outputs::{segment_pause, Outputs, Post, SEGMENT_BATCH};
use chronicle_worker::pipeline::{
    PipelineBeat, PipelineResult, PipelineScene, SpeakerTrack, TranscriptSegment,
};
use chronicle_worker::posting::{new_segments, PostingEnd, PostingStep, SegmentPosting};
use chronicle_worker::session_runner::{run_one_shot, StreamingRunner};
use chronicle_worker::time::Duration;
use chronicle_worker::worker::{
    drain_uploaded, finalize_streaming_session, process_next_session, session_processed,
    NextSession,
};
use uuid::Uuid;

/// Start, end and confidence, as the pipeline measures them.
#[derive(Clone, Copy, Debug, PartialEq)]
struct Timing(f64, f64, Option<f64>);

fn participant(pseudo: Option<&str>, scope: Option<&str>) -> Participant {
    Participant {
        id: Uuid::new_v4().as_u128(),
        user_pseudo_id: pseudo.map(str::to_string),
        consent_scope: scope.map(str::to_string),
    }
}

fn chunk(seq: u32) -> ChunkInfo {
    ChunkInfo { key: format!("k{seq}"), seq, size: 8 }
}

fn segment(index: u32, speaker: &str, text: &str) -> TranscriptSegment<Timing> {
    TranscriptSegment {
        segment_index: index,
        speaker_pseudo_id: speaker.to_string(),
        text: text.to_string(),
        original_text: text.to_string(),
        beat_id: None,
        chunk_group: Some(0),
        excluded: false,
        exclude_reason: None,
        timing: Timing(0.0, 1.0, Some(0.9)),
    }
}

fn transcript(n: u32) -> PipelineResult<Timing> {
    PipelineResult {
        segments: (0..n).map(|i| segment(i, "aabbccdd", "hello world")).collect(),
        beats: vec![],
        scenes: vec![],
    }
}

fn api_error(text: &str) -> WorkerError {
    WorkerError::Api(text.to_string())
}

/// A data-api and a pipeline that answer from memory and keep a log.
struct Backend {
    roster: Vec<(Option<&'static str>, Option<&'static str>)>,
    listings: Vec<(&'static str, Vec<u32>)>,
    bytes: Vec<u8>,
    lost: Vec<u32>,
    segments: u32,
    claim: Option<WorkerError>,
    log: Vec<String>,
    ran: Option<(SessionId, Vec<SpeakerTrack>)>,
}

impl Backend {
    fn new() -> Backend {
        Backend {
            roster: vec![(Some("aabbccdd"), Some("full")), (Some("deadbeef"), Some("decline"))],
            listings: vec![("aabbccdd", vec![0, 1])],
            bytes: vec![
                0x00, 0x40, 0x00, 0x40, // frame 1: L=0x4000, R=0x4000
                0x00, 0xC0, 0x00, 0xC0, // frame 2: L=0xC000, R=0xC000
            ],
            lost: vec![],
            segments: 1,
            claim: None,
            log: vec![],
            ran: None,
        }
    }

    fn drive(
        &mut self,
        mut job: SessionJob<Timing>,
        mut request: Request<Timing>,
    ) -> Result<JobOutcome, WorkerError> {
        loop {
            let reply = match request {
                Request::Patch(_, status) => {
                    self.log.push(format!("patch {}", status.as_str()));
                    match (status, self.claim.take()) {
                        (SessionStatus::Transcribing, Some(e)) => Reply::Done(Err(e)),
                        _ => Reply::Done(Ok(())),
                    }
                }
                Request::ListParticipants(_) => {
                    self.log.push("participants".to_string());
                    Reply::Participants(Ok(self
                        .roster
                        .iter()
                        .map(|(p, s)| participant(*p, *s))
                        .collect()))
                }
                Request::ListChunks(_, pseudo) => {
                    self.log.push(format!("chunks {}", pseudo.as_str()));
                    let listing = self.listings.iter().find(|(p, _)| *p == pseudo.as_str());
                    let seqs = listing.map(|(_, s)| s.clone()).unwrap_or_default();
                    Reply::Chunks(Ok(seqs.into_iter().map(chunk).collect()))
                }
                Request::Download(_, pseudo, seq) => {
                    self.log.push(format!("download {} {}", pseudo.as_str(), seq.to_text()));
                    if self.lost.contains(&seq.as_u32()) {
                        Reply::Bytes(Err(api_error("chunk 404 Not Found: ")))
                    } else {
                        Reply::Bytes(Ok(self.bytes.clone()))
                    }
                }
                Request::Run(id, tracks) => {
                    self.log.push("run".to_string());
                    self.ran = Some((id, tracks));
                    Reply::Transcript(Ok(transcript(self.segments)))
                }
                Request::FinalizeStream(_) => {
                    self.log.push("finalize".to_string());
                    Reply::Transcript(Ok(transcript(self.segments)))
                }
                Request::Post(_, post) => {
                    self.log.push(match &post {
                        Post::Segments(rows) => {
                            let indexes: Vec<i32> = rows.iter().map(|r| r.segment_index).collect();
                            format!("segments {indexes:?}")
                        }
                        Post::Beats(rows) => format!("beats {}", rows.len()),
                        Post::Scenes(rows) => format!("scenes {}", rows.len()),
                    });
                    Reply::Done(Ok(()))
                }
                Request::Finish(outcome) => return outcome,
            };
            let step = job.step(reply);
            job = step.0;
            request = step.1;
        }
    }
}

#[test]
fn happy_path_end_to_end() {
    let session_id = Uuid::new_v4().as_u128();
    let pseudo_id = "aabbccdd";
    let uploaded = vec![SessionSummary {
        id: SessionId(session_id),
        status: "uploaded".to_string(),
    }];

    let mut backend = Backend::new();
    let result = match process_next_session(Ok(uploaded)) {
        NextSession::Start(job, request) => session_processed(backend.drive(job, request)),
        _ => panic!("process succeeds"),
    };
    assert_eq!(result.unwrap(), Some(SessionId(session_id)));

    // The pipeline saw exactly one track with the expected speaker and sample
    // count. Two chunks * 2 stereo frames = 4 mono samples.
    let (ran_session, tracks) = backend.ran.as_ref().expect("pipeline was invoked");
    assert_eq!(ran_session.as_uuid(), session_id);
    assert_eq!(tracks.len(), 1);
    assert_eq!(tracks[0].pseudo_id.as_str(), pseudo_id);
    assert_eq!(tracks[0].sample_rate, 48_000);
    assert_eq!(tracks[0].samples.len(), 4);
    assert_eq!(tracks[0].samples, vec![0x4000, -0x4000, 0x4000, -0x4000]);
    assert_eq!(
        backend.log,
        vec![
            "patch transcribing",
            "participants",
            "chunks aabbccdd",
            "download aabbccdd 0",
            "download aabbccdd 1",
            "run",
            "segments [0]",
            "patch transcribed",
        ]
    );
}

#[test]
fn empty_queue_is_idle_and_a_failed_listing_is_reported() {
    assert!(matches!(process_next_session::<Timing>(Ok(vec![])), NextSession::Idle));
    match process_next_session::<Timing>(Err(api_error("500: down"))) {
        NextSession::Failed(e) => {
            assert_eq!(e.message(), "API error: data-api error: 500: down");
        }
        _ => panic!("a failed listing fails"),
    }
}

#[test]
fn drain_goes_on_while_sessions_are_processed() {
    assert!(drain_uploaded(&Ok(Some(SessionId(1)))));
    assert!(!drain_uploaded(&Ok(None)));
    assert!(!drain_uploaded(&session_processed(Err(api_error("x")))));
    let failed = session_processed(Err(WorkerError::Pipeline("vad".to_string())));
    assert_eq!(failed.unwrap_err().message(), "Pipeline error: vad");
}

#[test]
fn lost_claim_ends_a_one_shot_run_quietly() {
    let id = SessionId(3);
    let mut backend = Backend::new();
    backend.claim = Some(WorkerError::ClaimLost(id));
    let (job, request) = run_one_shot(id);
    assert!(matches!(backend.drive(job, request), Ok(JobOutcome::ClaimLost)));
    assert_eq!(backend.log, vec!["patch transcribing"]);
}

#[test]
fn failed_claim_ends_a_one_shot_run_with_its_error() {
    let mut backend = Backend::new();
    backend.claim = Some(WorkerError::NotFound(SessionId(3)));
    let (job, request) = run_one_shot(SessionId(3));
    assert!(matches!(backend.drive(job, request), Err(WorkerError::NotFound(_))));
    assert_eq!(backend.log, vec!["patch transcribing"]);
}

#[test]
fn failed_claim_does_not_stop_a_batch_run() {
    let mut backend = Backend::new();
    backend.claim = Some(WorkerError::ClaimLost(SessionId(3)));
    let row = SessionSummary { id: SessionId(3), status: "uploaded".to_string() };
    match process_next_session(Ok(vec![row])) {
        NextSession::Start(job, request) => {
            assert!(matches!(backend.drive(job, request), Ok(JobOutcome::Transcribed(SessionId(3)))));
        }
        _ => panic!("a session is waiting"),
    }
    assert_eq!(backend.log.last().unwrap(), "patch transcribed");
}

#[test]
fn nobody_consenting_means_nothing_is_touched() {
    let mut backend = Backend::new();
    backend.roster = vec![
        (Some("a"), None),
        (None, Some("full")),
        (Some("b"), Some("Full")),
        (Some("c"), Some("decline")),
    ];
    let (job, request) = run_one_shot(SessionId(1));
    assert!(backend.drive(job, request).is_ok());
    assert_eq!(backend.log, vec!["patch transcribing", "participants", "patch transcribed"]);
}

#[test]
fn speakers_without_chunks_are_passed_over() {
    let mut backend = Backend::new();
    backend.roster = vec![(Some("a"), Some("full")), (Some("b"), Some("full"))];
    backend.listings = vec![("a", vec![]), ("b", vec![2, 0, 1])];
    backend.lost = vec![1];
    let (job, request) = run_one_shot(SessionId(1));
    assert!(backend.drive(job, request).is_ok());
    assert_eq!(
        backend.log[2..7],
        ["chunks a", "chunks b", "download b 0", "download b 1", "download b 2"]
    );
    let (_, tracks) = backend.ran.unwrap();
    assert_eq!(tracks.len(), 1);
    assert_eq!(tracks[0].pseudo_id.as_str(), "b");
    assert_eq!(tracks[0].samples.len(), 4);
}

#[test]
fn session_without_audio_is_marked_at_once() {
    let mut backend = Backend::new();
    backend.listings = vec![];
    let (job, request) = run_one_shot(SessionId(1));
    assert!(backend.drive(job, request).is_ok());
    assert_eq!(
        backend.log,
        vec!["patch transcribing", "participants", "chunks aabbccdd", "patch transcribed"]
    );
}

#[test]
fn errors_end_a_run() {
    let (job, _) = run_one_shot::<Timing>(SessionId(1));
    let (job, _) = job.step(Reply::Done(Ok(())));
    let (_, request) = job.step(Reply::Participants(Err(api_error("500: p"))));
    assert!(matches!(request, Request::Finish(Err(WorkerError::Api(m))) if m == "500: p"));
}

#[test]
fn streamed_session_posts_what_is_left() {
    let mut runner = StreamingRunner::new(SessionId(8));
    assert!(runner.on_posted(post_all(4, None).1).is_ok());
    assert!(runner.on_posted(post_all(2, Some(0)).1).is_err());
    assert!(runner.on_posted(post_all(3, None).1).is_ok());
    assert_eq!(runner.posted_count(), 7);
    let mut backend = Backend::new();
    backend.segments = 9;
    let (job, request) = runner.finalize_streaming();
    assert!(backend.drive(job, request).is_ok());
    assert_eq!(
        backend.log,
        vec!["patch transcribing", "finalize", "segments [7, 8]", "patch transcribed"]
    );
}

#[test]
fn streamed_session_of_the_batch_loop_posts_everything() {
    let mut backend = Backend::new();
    backend.segments = 6;
    let (job, request) = finalize_streaming_session(SessionId(8));
    assert!(backend.drive(job, request).is_ok());
    assert_eq!(
        backend.log,
        vec![
            "patch transcribing",
            "finalize",
            "segments [0, 1, 2, 3, 4]",
            "segments [5]",
            "patch transcribed",
        ]
    );
}

#[test]
fn outputs_go_out_in_batches_then_beats_then_scenes() {
    let result = PipelineResult {
        segments: (0..11).map(|i| segment(i, "a", "t")).collect(),
        beats: vec![PipelineBeat {
            beat_index: 0,
            title: "b".to_string(),
            summary: "s".to_string(),
            timing: Timing(0.0, 2.0, None),
        }],
        scenes: vec![PipelineScene {
            scene_index: 0,
            title: "c".to_string(),
            summary: "s".to_string(),
            beat_start: 0,
            beat_end: 1,
            timing: Timing(0.0, 2.0, None),
        }],
    };
    let mut outputs = Outputs::of(result, None);
    assert_eq!(outputs.segment_count(), 11);
    let mut sizes = Vec::new();
    while let Some(post) = outputs.next_post() {
        sizes.push(match post {
            Post::Segments(rows) => ("segments", rows.len()),
            Post::Beats(rows) => ("beats", rows.len()),
            Post::Scenes(rows) => ("scenes", rows.len()),
        });
    }
    assert_eq!(
        sizes,
        vec![("segments", 5), ("segments", 5), ("segments", 1), ("beats", 1), ("scenes", 1)]
    );
    assert_eq!(SEGMENT_BATCH, 5);
    assert_eq!(segment_pause(), Duration::from_millis(50));
}

/// Post `n` segments; the batch with number `refused` is not accepted. Returns
/// the sizes of the batches that went out, and the end.
fn post_all(n: u32, refused: Option<usize>) -> (Vec<usize>, PostingEnd) {
    let segments = (0..n).map(|i| segment(i, "a", "t")).collect();
    let fed = vec![Err(WorkerError::Pipeline("vad".to_string())), Ok(segments)];
    let mut sizes = Vec::new();
    let mut step = SegmentPosting::start(fed);
    loop {
        step = match step {
            PostingStep::Send(posting, Post::Segments(rows)) => {
                sizes.push(rows.len());
                if refused == Some(sizes.len() - 1) {
                    posting.step(Err(api_error("500: busy")))
                } else {
                    posting.step(Ok(()))
                }
            }
            PostingStep::Send(..) => panic!("a stream posts segments only"),
            PostingStep::End(end) => return (sizes, end),
        };
    }
}

#[test]
fn accepted_batches_count_all_segments() {
    let (sizes, end) = post_all(12, None);
    assert_eq!(sizes, vec![5, 5, 2]);
    assert_eq!((end.is_ok(), end.segment_count()), (true, 12));
    let (sizes, end) = post_all(0, None);
    assert!(sizes.is_empty());
    assert_eq!((end.is_ok(), end.segment_count()), (true, 0));
}

#[test]
fn no_batch_follows_a_refused_one() {
    let (sizes, end) = post_all(12, Some(1));
    assert_eq!(sizes, vec![5, 5]);
    assert!(!end.is_ok());
    assert!(matches!(end.into_outcome(), Err(WorkerError::Api(m)) if m == "500: busy"));
}

#[test]
fn refused_chunks_give_no_segments() {
    let fed = vec![
        Ok(vec![segment(0, "a", "one"), segment(1, "a", "two")]),
        Err(WorkerError::Pipeline("vad".to_string())),
        Ok(vec![]),
        Ok(vec![segment(2, "a", "three")]),
    ];
    let texts: Vec<String> = new_segments(fed).into_iter().map(|s| s.text).collect();
    assert_eq!(texts, vec!["one", "two", "three"]);
}

#[test]
fn wires_keep_every_field() {
    let mut s = segment(u32::MAX, "who", "edited");
    s.original_text = "said".to_string();
    s.beat_id = Some(4);
    s.chunk_group = None;
    s.excluded = true;
    s.exclude_reason = Some("noise".to_string());
    let mut outputs = Outputs::of_segments(vec![s]);
    match outputs.next_post() {
        Some(Post::Segments(rows)) => {
            let w = &rows[0];
            assert_eq!(w.segment_index, -1);
            assert_eq!(w.speaker_pseudo_id, "who");
            assert_eq!((w.text.as_str(), w.original_text.as_str()), ("edited", "said"));
            assert_eq!((w.beat_id, w.chunk_group), (Some(4), None));
            assert!(w.excluded);
            assert_eq!(w.exclude_reason.as_deref(), Some("noise"));
            assert_eq!(w.timing, Timing(0.0, 1.0, Some(0.9)));
        }
        _ => panic!("segments come first"),
    }
    assert!(outputs.next_post().is_none());
}
