//! The worker's batch loop.
//!
//! The loop follows the event bus. A session whose recording has ended is
//! finalized where it was streamed, and taken from the queue of uploaded
//! sessions otherwise. Chunks are fed to the session's stream as they are
//! announced. On every connection and after every disconnect the queue is
//! drained, so that nothing is missed while the bus is down.

use std::collections::HashMap;

use vstd::prelude::*;

use crate::api_client::SessionSummary;
use crate::decode::{decode_stereo_to_mono_i16, mono};
use crate::ids::{ChunkSeq, PseudoId, SessionId};
use crate::job::{
    AudioSource, ClaimPolicy, JobModel, JobOutcome, Plan, Reply, Request, RequestModel,
    SessionJob, SessionStatus, StageModel,
};
use crate::lanes::{
    audible, fed, is_audible, samples_of, FeedChunk, LaneModel, Lanes,
};
use crate::posting::PostingEnd;
use crate::text::{
    before_first, contains, first_at, first_at_exists, occurs_at, same_text, split_once,
};
use crate::time::Duration;
use crate::ws::{backoff_secs, Attempt, Backoff};

pub use crate::operators::RealPipelineRunner;

verus! {

/// What can go wrong with a session.
#[derive(Debug)]
pub enum WorkerError {
    /// The data-api failed.
    Api(crate::error::WorkerError),
    /// The pipeline failed.
    Pipeline(String),
}

impl WorkerError {
    /// The error behind a session's failure.
    pub open spec fn of_spec(e: crate::error::WorkerError) -> WorkerError {
        match e {
            crate::error::WorkerError::Pipeline(m) => WorkerError::Pipeline(m),
            e => WorkerError::Api(e),
        }
    }

    pub fn of(e: crate::error::WorkerError) -> (w: WorkerError)
        ensures
            w == Self::of_spec(e),
            match e {
                crate::error::WorkerError::Pipeline(m) => w == WorkerError::Pipeline(m),
                e => w == WorkerError::Api(e),
            },
    {
        match e {
            crate::error::WorkerError::Pipeline(m) => WorkerError::Pipeline(m),
            e => WorkerError::Api(e),
        }
    }

    /// The error as a line of text.
    pub fn message(&self) -> (s: String)
        ensures
            s@ == match *self {
                WorkerError::Api(e) => "API error: "@ + e.spec_message(),
                WorkerError::Pipeline(m) => "Pipeline error: "@ + m@,
            },
    {
        match self {
            WorkerError::Api(e) => "API error: ".to_owned().concat(e.message().as_str()),
            WorkerError::Pipeline(m) => "Pipeline error: ".to_owned().concat(m.as_str()),
        }
    }
}

/// What came of a look at the queue of uploaded sessions.
pub enum NextSession<T> {
    /// The queue is empty.
    Idle,
    /// The queue could not be read.
    Failed(WorkerError),
    /// A job that runs the first session, and its first request.
    Start(SessionJob<T>, Request<T>),
}

/// The course of a session that is taken from the queue: a failed claim is
/// passed over, since bailing out would leave the session stuck.
pub open spec fn batch_plan() -> Plan {
    Plan { claim: ClaimPolicy::BestEffort, source: AudioSource::Storage, posted: None }
}

/// The course of a session that was streamed. All segments are posted again:
/// finalizing numbers them anew.
pub open spec fn finalize_plan() -> Plan {
    Plan { claim: ClaimPolicy::BestEffort, source: AudioSource::Stream, posted: None }
}

/// Take the first uploaded session off the queue and begin to run it.
pub fn process_next_session<T>(
    uploaded: Result<Vec<SessionSummary>, crate::error::WorkerError>,
) -> (next: NextSession<T>)
    ensures
        uploaded matches Err(e) ==> (next matches NextSession::Failed(w) && (match e {
            crate::error::WorkerError::Pipeline(m) => w == WorkerError::Pipeline(m),
            e => w == WorkerError::Api(e),
        })),
        uploaded matches Ok(sessions) ==> sessions@.len() > 0 ==> (
        next matches NextSession::Start(job, request) && job@.session == sessions@[0].id
            && job@.plan.claim is BestEffort && job@.plan.source is Storage
            && job@.plan.posted is None && job@.stage is Claiming),
        match uploaded {
            Err(e) => next == NextSession::<T>::Failed(WorkerError::of_spec(e)),
            Ok(sessions) => if sessions@.len() == 0 {
                next is Idle
            } else {
                next matches NextSession::Start(job, request) && {
                    &&& job.wf()
                    &&& job@ == (JobModel {
                        plan: batch_plan(),
                        session: sessions@[0].id,
                        stage: StageModel::<T>::Claiming,
                    })
                    &&& request@ == RequestModel::<T>::Patch(
                        sessions@[0].id,
                        SessionStatus::Transcribing,
                    )
                }
            },
        },
{
    match uploaded {
        Err(e) => NextSession::Failed(WorkerError::of(e)),
        Ok(sessions) => {
            if sessions.len() == 0 {
                NextSession::Idle
            } else {
                let (job, request) = SessionJob::start(
                    sessions[0].id,
                    Plan {
                        claim: ClaimPolicy::BestEffort,
                        source: AudioSource::Storage,
                        posted: None,
                    },
                );
                NextSession::Start(job, request)
            }
        },
    }
}

/// Begin to finalize a streamed session.
pub fn finalize_streaming_session<T>(session: SessionId) -> (r: (SessionJob<T>, Request<T>))
    ensures
        r.0.wf(),
        r.0@.session == session,
        r.0@.plan.claim is BestEffort,
        r.0@.plan.source is Stream,
        r.0@.plan.posted is None,
        r.0@.stage is Claiming,
        r.0@ == (JobModel {
            plan: finalize_plan(),
            session,
            stage: StageModel::<T>::Claiming,
        }),
        r.1@ == RequestModel::<T>::Patch(session, SessionStatus::Transcribing),
{
    SessionJob::start(
        session,
        Plan { claim: ClaimPolicy::BestEffort, source: AudioSource::Stream, posted: None },
    )
}

/// What is reported of a job that has ended: the session, if it was processed.
pub fn session_processed(outcome: Result<JobOutcome, crate::error::WorkerError>) -> (r: Result<
    Option<SessionId>,
    WorkerError,
>)
    ensures
        match outcome {
            Ok(JobOutcome::Transcribed(id)) => r == Ok::<Option<SessionId>, WorkerError>(Some(id)),
            Ok(JobOutcome::ClaimLost) => r == Ok::<Option<SessionId>, WorkerError>(None),
            Err(e) => r == Err::<Option<SessionId>, WorkerError>(WorkerError::of_spec(e)),
        },
        outcome matches Err(e) ==> (r matches Err(w) && (match e {
            crate::error::WorkerError::Pipeline(m) => w == WorkerError::Pipeline(m),
            e => w == WorkerError::Api(e),
        })),
{
    match outcome {
        Ok(JobOutcome::Transcribed(id)) => Ok(Some(id)),
        Ok(JobOutcome::ClaimLost) => Ok(None),
        Err(e) => Err(WorkerError::of(e)),
    }
}

/// A job that claims on a best-effort basis never loses its claim.
pub proof fn best_effort_keeps_the_session<T>(
    job: JobModel<T>,
    replies: Seq<Reply<T>>,
    i: int,
)
    requires
        job.plan.claim == ClaimPolicy::BestEffort,
        job.fits(replies),
        0 <= i < job.requests(replies).len(),
    ensures
        job.requests(replies)[i] != RequestModel::<T>::Finish(Ok(JobOutcome::ClaimLost)),
    decreases replies.len(),
{
    let step = job.next(replies[0]);
    if i > 0 {
        assert(job.requests(replies)[i] == step.0.requests(replies.drop_first())[i - 1]);
        best_effort_keeps_the_session(step.0, replies.drop_first(), i - 1);
    } else {
        assert(job.requests(replies)[0] == step.1);
    }
}

/// The queue is drained until it is empty or a session fails.
pub fn drain_uploaded(last: &Result<Option<SessionId>, WorkerError>) -> (again: bool)
    ensures
        again == (last matches Ok(Some(_))),
{
    match last {
        Ok(Some(_)) => true,
        Ok(None) => false,
        Err(_) => false,
    }
}

/// An event, with the fields that the worker switches on. Which of them are
/// there depends on the event.
pub struct WsEvent {
    pub event: String,
    pub session_id: Option<SessionId>,
    pub status: Option<String>,
    pub pseudo_id: Option<String>,
    pub chunk_seq: Option<u32>,
    pub size_bytes: Option<u64>,
}

/// What an event is about.
pub enum EventKind {
    /// The session's recording has ended.
    Uploaded(SessionId),
    /// A chunk of a speaker was stored.
    Chunk(SessionId, Seq<char>, u32),
    /// Nothing that the worker acts on.
    Other,
}

impl WsEvent {
    pub open spec fn kind(self) -> EventKind {
        if self.event@ == "session_status_changed"@ {
            match (self.status, self.session_id) {
                (Some(status), Some(id)) => if status@ == "uploaded"@ {
                    EventKind::Uploaded(id)
                } else {
                    EventKind::Other
                },
                _ => EventKind::Other,
            }
        } else if self.event@ == "chunk_uploaded"@ {
            match (self.session_id, self.pseudo_id, self.chunk_seq) {
                (Some(id), Some(pseudo), Some(seq)) => EventKind::Chunk(id, pseudo@, seq),
                _ => EventKind::Other,
            }
        } else {
            EventKind::Other
        }
    }
}

/// What to do about an event.
pub enum WsAction {
    /// Nothing.
    Ignore,
    /// Finalize the session's stream, from which so many segments have been
    /// posted. Where that fails, run a session from the queue.
    Finalize { session: SessionId, streamed: u32 },
    /// Run a session from the queue.
    RunBatch,
    /// Download a chunk and hand it to `handle_chunk_uploaded`.
    Download { session: SessionId, pseudo: PseudoId, seq: ChunkSeq },
}

/// A session that is being streamed.
pub struct ActiveSession {
    lanes: Lanes,
    posted_segment_count: u32,
}

/// The chunks to feed after a download.
pub struct Ingest {
    /// The session had no stream before.
    pub opened: bool,
    /// The chunks for the pipeline, in order.
    pub ready: Vec<FeedChunk>,
}

/// The sessions that are being streamed.
pub struct ActiveSessions {
    sessions: HashMap<u128, ActiveSession>,
}

broadcast use vstd::std_specs::hash::group_hash_axioms;

impl ActiveSessions {
    pub closed spec fn wf(self) -> bool {
        forall|k: u128| #[trigger]
            self.sessions@.contains_key(k) ==> self.sessions@[k].lanes.wf()
    }

    /// The session is being streamed.
    pub closed spec fn is_active(self, session: SessionId) -> bool {
        self.sessions@.contains_key(session.0)
    }

    /// A speaker's lane in a session; empty where the session is not streamed.
    pub closed spec fn lane(self, session: SessionId, pseudo: Seq<char>) -> LaneModel {
        if self.sessions@.contains_key(session.0) {
            self.sessions@[session.0].lanes.lane(pseudo)
        } else {
            LaneModel::empty()
        }
    }

    /// The number of segments posted from a session's stream.
    pub closed spec fn posted(self, session: SessionId) -> u32 {
        if self.sessions@.contains_key(session.0) {
            self.sessions@[session.0].posted_segment_count
        } else {
            0
        }
    }

    /// All but one session are as they were.
    pub open spec fn others_kept(self, post: ActiveSessions, session: SessionId) -> bool {
        &&& forall|s: SessionId| s != session ==> #[trigger] post.is_active(s) == self.is_active(s)
        &&& forall|s: SessionId| s != session ==> #[trigger] post.posted(s) == self.posted(s)
        &&& forall|s: SessionId, p: Seq<char>|
            s != session ==> #[trigger] post.lane(s, p) == self.lane(s, p)
    }

    /// What happens to one session leaves every other session as it was: whether
    /// it is streamed, what waits in its lanes, and how much of it was posted.
    pub proof fn other_sessions_are_left_alone(
        self,
        post: ActiveSessions,
        session: SessionId,
        other: SessionId,
        pseudo: Seq<char>,
    )
        requires
            self.others_kept(post, session),
            other != session,
        ensures
            post.is_active(other) == self.is_active(other),
            post.posted(other) == self.posted(other),
            post.lane(other, pseudo) == self.lane(other, pseudo),
    {
    }

    /// A session that is not being streamed has empty lanes, and nothing of it
    /// was posted.
    pub proof fn inactive_sessions_are_blank(self, session: SessionId)
        requires
            !self.is_active(session),
        ensures
            forall|p: Seq<char>| #[trigger] self.lane(session, p) == LaneModel::empty(),
            self.posted(session) == 0,
    {
    }

    pub fn new() -> (a: ActiveSessions)
        ensures
            a.wf(),
            forall|s: SessionId| !(#[trigger] a.is_active(s)),
            forall|s: SessionId, p: Seq<char>| #[trigger] a.lane(s, p) == LaneModel::empty(),
            forall|s: SessionId| #[trigger] a.posted(s) == 0,
    {
        ActiveSessions { sessions: HashMap::new() }
    }

    /// Decide what to do about an event. A session that is to be finalized is
    /// no longer active.
    pub fn handle_ws_event(&mut self, event: &WsEvent) -> (action: WsAction)
        requires
            old(self).wf(),
        ensures
            final(self).wf(),
            match event.kind() {
                EventKind::Uploaded(id) => {
                    &&& !final(self).is_active(id)
                    &&& old(self).others_kept(*final(self), id)
                    &&& if old(self).is_active(id) {
                        action == (WsAction::Finalize {
                            session: id,
                            streamed: old(self).posted(id),
                        })
                    } else {
                        action is RunBatch
                    }
                },
                EventKind::Chunk(id, pseudo, seq) => {
                    &&& *final(self) == *old(self)
                    &&& action matches WsAction::Download { session, pseudo: p, seq: q } && session
                        == id && p@ == pseudo && q.0 == seq
                },
                EventKind::Other => *final(self) == *old(self) && action is Ignore,
            },
            event.event@ == "session_status_changed"@ && event.status is Some
                && event.status->0@ == "uploaded"@ && event.session_id is Some ==> if old(
                self,
            ).is_active(event.session_id->0) {
                action == (WsAction::Finalize {
                    session: event.session_id->0,
                    streamed: old(self).posted(event.session_id->0),
                })
            } else {
                action is RunBatch
            },
            event.event@ == "chunk_uploaded"@ && event.session_id is Some && event.pseudo_id is Some
                && event.chunk_seq is Some ==> (action matches WsAction::Download {
                session,
                pseudo: p,
                seq: q,
            } && session == event.session_id->0 && p@ == event.pseudo_id->0@ && q.0
                == event.chunk_seq->0),
            !(action is Ignore) ==> {
                ||| event.event@ == "session_status_changed"@ && event.status is Some
                    && event.status->0@ == "uploaded"@ && event.session_id is Some
                ||| event.event@ == "chunk_uploaded"@ && event.session_id is Some
                    && event.pseudo_id is Some && event.chunk_seq is Some
            },
            !(action is Finalize) ==> forall|s: SessionId| #[trigger]
                final(self).is_active(s) == old(self).is_active(s),
    {
        proof {
            reveal_strlit("session_status_changed");
            reveal_strlit("chunk_uploaded");
            assert("session_status_changed"@.len() != "chunk_uploaded"@.len());
        }
        if same_text(event.event.as_str(), "session_status_changed") {
            match (&event.status, event.session_id) {
                (Some(status), Some(id)) => {
                    if same_text(status.as_str(), "uploaded") {
                        match self.sessions.remove(&id.0) {
                            Some(active) => WsAction::Finalize {
                                session: id,
                                streamed: active.posted_segment_count,
                            },
                            None => WsAction::RunBatch,
                        }
                    } else {
                        WsAction::Ignore
                    }
                },
                _ => WsAction::Ignore,
            }
        } else if same_text(event.event.as_str(), "chunk_uploaded") {
            match (event.session_id, &event.pseudo_id, event.chunk_seq) {
                (Some(session), Some(pseudo), Some(seq)) => WsAction::Download {
                    session,
                    pseudo: PseudoId::new(pseudo.clone()),
                    seq: ChunkSeq::new(seq),
                },
                _ => WsAction::Ignore,
            }
        } else {
            WsAction::Ignore
        }
    }

    /// Take in a downloaded chunk and say what the pipeline is fed with.
    ///
    /// A download that failed and a chunk without samples change nothing. The
    /// first chunk of a session opens its stream.
    pub fn handle_chunk_uploaded(
        &mut self,
        session: SessionId,
        pseudo: &PseudoId,
        seq: ChunkSeq,
        bytes: Result<Vec<u8>, crate::error::WorkerError>,
    ) -> (r: Result<Ingest, WorkerError>)
        requires
            old(self).wf(),
        ensures
            final(self).wf(),
            bytes matches Err(e) ==> (r matches Err(w) && (match e {
                crate::error::WorkerError::Pipeline(m) => w == WorkerError::Pipeline(m),
                e => w == WorkerError::Api(e),
            })),
            match bytes {
                Err(e) => {
                    &&& r == Err::<Ingest, WorkerError>(WorkerError::of_spec(e))
                    &&& *final(self) == *old(self)
                },
                Ok(raw) => if mono(raw@).len() == 0 {
                    &&& r matches Ok(i) && !i.opened && i.ready@.len() == 0
                    &&& *final(self) == *old(self)
                } else {
                    let step = old(self).lane(session, pseudo@).arrive(seq.0, raw@);
                    &&& r matches Ok(i) && i.opened == !old(self).is_active(session) && fed(i.ready@)
                        == step.1.filter(|c: (u32, Seq<i16>)| is_audible(c)) && samples_of(fed(i.ready@))
                        == samples_of(step.1)
                    &&& final(self).is_active(session)
                    &&& final(self).posted(session) == old(self).posted(session)
                    &&& final(self).lane(session, pseudo@) == step.0
                    &&& forall|q: Seq<char>|
                        q != pseudo@ ==> #[trigger] final(self).lane(session, q)
                            == old(self).lane(session, q)
                    &&& old(self).others_kept(*final(self), session)
                },
            },
    {
        let raw = match bytes {
            Err(e) => return Err(WorkerError::of(e)),
            Ok(raw) => raw,
        };
        if decode_stereo_to_mono_i16(raw.as_slice()).len() == 0 {
            return Ok(Ingest { opened: false, ready: Vec::new() });
        }
        let ghost before = *self;
        let (opened, active) = match self.sessions.remove(&session.0) {
            Some(active) => (false, active),
            None => (true, ActiveSession { lanes: Lanes::new(), posted_segment_count: 0 }),
        };
        let mut active = active;
        let ghost entry = active;
        let ready = active.lanes.accept(pseudo, seq, raw);
        self.sessions.insert(session.0, active);
        proof {
            assert(entry.lanes.lane(pseudo@) == before.lane(session, pseudo@));
            assert forall|q: Seq<char>| q != pseudo@ implies #[trigger] self.lane(session, q)
                == before.lane(session, q) by {
                assert(active.lanes.lane(q) == entry.lanes.lane(q));
            }
        }
        Ok(Ingest { opened, ready: audible(ready) })
    }

    /// The number of segments posted from a session's stream.
    pub fn posted_segment_count(&self, session: SessionId) -> (n: u32)
        ensures
            n == self.posted(session),
    {
        match self.sessions.get(&session.0) {
            Some(active) => active.posted_segment_count,
            None => 0,
        }
    }

    /// Posting segments of a session's stream ended. They count as posted where
    /// all of them went out.
    pub fn on_posted(&mut self, session: SessionId, end: &PostingEnd)
        requires
            old(self).wf(),
            old(self).is_active(session),
            end.outcome() is Ok ==> old(self).posted(session) + end.count() <= u32::MAX,
        ensures
            final(self).wf(),
            final(self).is_active(session),
            final(self).posted(session) == (if end.outcome() is Ok {
                old(self).posted(session) + end.count()
            } else {
                old(self).posted(session) as int
            }),
            forall|q: Seq<char>| #[trigger]
                final(self).lane(session, q) == old(self).lane(session, q),
            old(self).others_kept(*final(self), session),
    {
        if end.is_ok() {
            let count: usize = end.segment_count();
            match self.sessions.remove(&session.0) {
                Some(active) => {
                    let mut active = active;
                    active.posted_segment_count = active.posted_segment_count + count as u32;
                    self.sessions.insert(session.0, active);
                },
                None => {},
            }
        }
    }
}

/// A finalized stream that failed is followed by a run from the queue.
pub fn falls_back_to_batch(outcome: &Result<JobOutcome, crate::error::WorkerError>) -> (b: bool)
    ensures
        b == outcome is Err,
{
    match outcome {
        Ok(_) => false,
        Err(_) => true,
    }
}

/// The part of a URL that is logged: what stands before the query.
pub fn logged_url(url: &str) -> (s: &str)
    ensures
        s@ == (if contains(url@, "?"@) {
            before_first(url@, "?"@)
        } else {
            url@
        }),
        s@.len() <= url@.len(),
        s@ == url@.take(s@.len() as int),
        !s@.contains('?'),
        s@.len() < url@.len() ==> url@[s@.len() as int] == '?',
{
    proof {
        reveal_strlit("?");
        let text = url@;
        if contains(text, "?"@) {
            let at = choose|i: int| occurs_at(text, "?"@, i);
            first_at_exists(text, "?"@, at);
            let n = choose|i: int| first_at(text, "?"@, i);
            assert(first_at(text, "?"@, n));
            assert(text.subrange(n, n + 1)[0] == '?');
            assert(!text.take(n).contains('?')) by {
                if text.take(n).contains('?') {
                    let j = choose|j: int| 0 <= j < n && text.take(n)[j] == '?';
                    assert(text.subrange(j, j + 1) =~= "?"@);
                    assert(occurs_at(text, "?"@, j));
                }
            }
        } else if text.contains('?') {
            let j = choose|j: int| 0 <= j < text.len() && text[j] == '?';
            assert(text.subrange(j, j + 1) =~= "?"@);
            assert(occurs_at(text, "?"@, j));
        }
        assert(text.take(text.len() as int) =~= text);
    }
    match split_once(url, "?") {
        Some((head, _)) => head,
        None => url,
    }
}

/// What happens on the loop's connection.
pub enum LoopEvent {
    /// An attempt to connect ended.
    Attempted(Attempt),
    /// The token was renewed, as far as that was possible.
    Renewed,
    /// The subscription was sent, or not.
    Subscribed(bool),
    /// The queue was drained.
    Drained,
    /// A text frame, with the event in it if it parses.
    Text(Option<WsEvent>),
    /// The event was dealt with.
    Handled,
    /// A frame that carries nothing for the worker.
    OtherFrame,
    /// The peer closed the connection, or it failed, or it ended.
    Ended,
    /// The wait is over.
    Woke,
}

/// What the loop does next.
pub enum LoopAction {
    Connect,
    /// Authenticate anew: the next attempt is made with the new token.
    Renew,
    Subscribe,
    /// Run sessions from the queue as long as `drain_uploaded` says so.
    Drain,
    /// Read the next frame.
    Read,
    /// Deal with an event.
    Handle(WsEvent),
    Sleep(Duration),
}

/// What the loop waits for.
#[derive(Clone, Copy, Debug, PartialEq, Eq, Structural)]
pub enum LoopState {
    Connecting,
    Renewing,
    Subscribing,
    CatchingUp,
    Reading,
    Handling,
    /// The queue is drained after a disconnect.
    Draining,
    Sleeping,
}

/// The loop that keeps the worker connected. It never ends.
pub struct WorkerLoop {
    state: LoopState,
    backoff: Backoff,
}

impl WorkerLoop {
    pub closed spec fn wf(self) -> bool {
        self.backoff.wf()
    }

    pub closed spec fn state(self) -> LoopState {
        self.state
    }

    /// How many waits there have been since the last connection.
    pub closed spec fn failures(self) -> nat {
        self.backoff.failures()
    }

    /// The loop waits for an event of this kind.
    pub open spec fn awaits(self, event: LoopEvent) -> bool {
        match self.state() {
            LoopState::Connecting => event is Attempted,
            LoopState::Renewing => event is Renewed,
            LoopState::Subscribing => event is Subscribed,
            LoopState::CatchingUp => event is Drained,
            LoopState::Reading => event is Text || event is OtherFrame || event is Ended,
            LoopState::Handling => event is Handled,
            LoopState::Draining => event is Drained,
            LoopState::Sleeping => event is Woke,
        }
    }

    pub fn new() -> (l: WorkerLoop)
        ensures
            l.wf(),
            l.state() == LoopState::Connecting,
            l.failures() == 0,
    {
        WorkerLoop { state: LoopState::Connecting, backoff: Backoff::new() }
    }

    fn sleep(&mut self) -> (a: LoopAction)
        requires
            old(self).wf(),
        ensures
            final(self).wf(),
            final(self).state() == LoopState::Sleeping,
            final(self).failures() == old(self).failures() + 1,
            a matches LoopAction::Sleep(d) && d.nanos == Duration::of_secs(
                backoff_secs(old(self).failures()),
            ),
    {
        self.state = LoopState::Sleeping;
        LoopAction::Sleep(self.backoff.wait())
    }

    /// Take in what happened and say what comes next.
    ///
    /// The queue is drained right after subscribing, and again after the
    /// connection has ended. A subscription that cannot be sent is followed by
    /// a new attempt at once; a failed attempt to connect, and a connection that
    /// has ended, by a wait. Where the peer refused the token, it is renewed
    /// before the wait.
    pub fn run(&mut self, event: LoopEvent) -> (action: LoopAction)
        requires
            old(self).wf(),
            old(self).awaits(event),
        ensures
            final(self).wf(),
            match (old(self).state(), event) {
                (LoopState::Connecting, LoopEvent::Attempted(Attempt::Connected)) => {
                    &&& action is Subscribe
                    &&& final(self).state() == LoopState::Subscribing
                    &&& final(self).failures() == 0
                },
                (LoopState::Connecting, LoopEvent::Attempted(Attempt::Unauthorized)) => {
                    &&& action is Renew
                    &&& final(self).state() == LoopState::Renewing
                    &&& final(self).failures() == old(self).failures()
                },
                (LoopState::Connecting, _) | (LoopState::Renewing, _) | (
                    LoopState::Draining,
                    _,
                ) => {
                    &&& action matches LoopAction::Sleep(d) && d.nanos == Duration::of_secs(
                        backoff_secs(old(self).failures()),
                    )
                    &&& final(self).state() == LoopState::Sleeping
                    &&& final(self).failures() == old(self).failures() + 1
                },
                (state, event) => {
                    &&& final(self).failures() == old(self).failures()
                    &&& match event {
                        LoopEvent::Subscribed(true) => action is Drain && final(self).state()
                            == LoopState::CatchingUp,
                        LoopEvent::Subscribed(false) => action is Connect && final(self).state()
                            == LoopState::Connecting,
                        LoopEvent::Text(Some(e)) => action == LoopAction::Handle(e)
                            && final(self).state() == LoopState::Handling,
                        LoopEvent::Ended => action is Drain && final(self).state()
                            == LoopState::Draining,
                        LoopEvent::Woke => action is Connect && final(self).state()
                            == LoopState::Connecting,
                        _ => action is Read && final(self).state() == LoopState::Reading,
                    }
                },
            },
    {
        match event {
            LoopEvent::Attempted(Attempt::Connected) => {
                self.backoff.reset();
                self.state = LoopState::Subscribing;
                LoopAction::Subscribe
            },
            LoopEvent::Attempted(Attempt::Unauthorized) => {
                self.state = LoopState::Renewing;
                LoopAction::Renew
            },
            LoopEvent::Attempted(Attempt::Failed) => self.sleep(),
            LoopEvent::Renewed => self.sleep(),
            LoopEvent::Subscribed(true) => {
                self.state = LoopState::CatchingUp;
                LoopAction::Drain
            },
            LoopEvent::Subscribed(false) => {
                self.state = LoopState::Connecting;
                LoopAction::Connect
            },
            LoopEvent::Drained => {
                match self.state {
                    LoopState::Draining => self.sleep(),
                    _ => {
                        self.state = LoopState::Reading;
                        LoopAction::Read
                    },
                }
            },
            LoopEvent::Text(Some(e)) => {
                self.state = LoopState::Handling;
                LoopAction::Handle(e)
            },
            LoopEvent::Text(None) => LoopAction::Read,
            LoopEvent::Handled => {
                self.state = LoopState::Reading;
                LoopAction::Read
            },
            LoopEvent::OtherFrame => LoopAction::Read,
            LoopEvent::Ended => {
                self.state = LoopState::Draining;
                LoopAction::Drain
            },
            LoopEvent::Woke => {
                self.state = LoopState::Connecting;
                LoopAction::Connect
            },
        }
    }
}

} // verus!
