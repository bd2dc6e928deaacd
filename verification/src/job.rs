//! The course of one session's transcription.
//!
//! A job is driven by replies: each reply yields the next request, until the
//! job is finished. The caller performs the requests.
//!
//! ```text
//! claim -> participants -> chunks ... -> pipeline -> posts ... -> mark -> done
//!     \-> (streaming) ----------------> pipeline
//! ```

use vstd::prelude::*;

use crate::api_client::{ChunkInfo, Participant};
use crate::collector::{
    ascending_is_sorted, consented, expected_tracks, listed_seqs, one_speaker,
    sorted_is_ascending, tracks_hold_each_speakers_audio, CollectorModel, Need, NeedModel, SpeakerScript,
    TrackCollector,
};
use crate::error::WorkerError;
use crate::ids::{ChunkSeq, PseudoId, SessionId};
use crate::outputs::{
    beat_rows, beats_and_scenes_are_all_posted, later_segments_are_all_posted, scene_rows,
    segment_rows, segments_are_all_posted, Outputs, OutputsModel, Post, PostModel,
};
use crate::pipeline::{
    tells_beat, tells_scene, tells_segment, track_contents, BeatWire, PipelineResult, SceneWire,
    SegmentWire, SpeakerTrack, TrackModel,
};

verus! {

/// The states that the worker puts a session in.
#[derive(Clone, Copy, Debug, PartialEq, Eq, Structural)]
pub enum SessionStatus {
    Transcribing,
    Transcribed,
    TranscribingFailed,
}

impl SessionStatus {
    /// The status on the wire.
    pub open spec fn name(self) -> Seq<char> {
        match self {
            SessionStatus::Transcribing => "transcribing"@,
            SessionStatus::Transcribed => "transcribed"@,
            SessionStatus::TranscribingFailed => "transcribing_failed"@,
        }
    }

    pub fn as_str(&self) -> (s: &'static str)
        ensures
            s@ == self.name(),
            s@ == match *self {
                SessionStatus::Transcribing => "transcribing"@,
                SessionStatus::Transcribed => "transcribed"@,
                SessionStatus::TranscribingFailed => "transcribing_failed"@,
            },
    {
        match self {
            SessionStatus::Transcribing => "transcribing",
            SessionStatus::Transcribed => "transcribed",
            SessionStatus::TranscribingFailed => "transcribing_failed",
        }
    }
}

/// What a failed claim means.
#[derive(Clone, Copy, Debug, PartialEq, Eq, Structural)]
pub enum ClaimPolicy {
    /// The session belongs to whoever claims it first.
    Required,
    /// The job goes on whatever the claim's outcome.
    BestEffort,
}

/// Where the audio comes from.
#[derive(Clone, Copy, Debug, PartialEq, Eq, Structural)]
pub enum AudioSource {
    /// The stored chunks of the consenting participants.
    Storage,
    /// A streaming pipeline that has been fed already.
    Stream,
}

/// How a job proceeds.
#[derive(Clone, Copy, Debug, PartialEq, Eq, Structural)]
pub struct Plan {
    pub claim: ClaimPolicy,
    pub source: AudioSource,
    /// The number of segments that streaming has posted, when those are not to
    /// be posted again.
    pub posted: Option<u32>,
}

/// How a job ended well.
#[derive(Clone, Copy, Debug, PartialEq, Eq, Structural)]
pub enum JobOutcome {
    /// The session is transcribed.
    Transcribed(SessionId),
    /// Another worker owns the session.
    ClaimLost,
}

/// Where a job stands: what it waits for.
#[verifier::ext_equal]
pub enum StageModel<T> {
    Claiming,
    ListingParticipants,
    Collecting(CollectorModel),
    Running,
    Writing(OutputsModel<T>),
    Marking,
    Finished,
}

#[verifier::ext_equal]
pub struct JobModel<T> {
    pub plan: Plan,
    pub session: SessionId,
    pub stage: StageModel<T>,
}

/// What a job asks for.
#[verifier::ext_equal]
pub enum RequestModel<T> {
    Patch(SessionId, SessionStatus),
    ListParticipants(SessionId),
    ListChunks(SessionId, Seq<char>),
    Download(SessionId, Seq<char>, u32),
    Run(SessionId, Seq<TrackModel>),
    FinalizeStream(SessionId),
    Post(SessionId, PostModel<T>),
    Finish(Result<JobOutcome, WorkerError>),
}

/// What comes back for a request.
pub enum Reply<T> {
    /// Of a status change or a post.
    Done(Result<(), WorkerError>),
    Participants(Result<Vec<Participant>, WorkerError>),
    Chunks(Result<Vec<ChunkInfo>, WorkerError>),
    Bytes(Result<Vec<u8>, WorkerError>),
    /// Of the pipeline, batch or streaming.
    Transcript(Result<PipelineResult<T>, WorkerError>),
}

/// The bytes of a download, if it succeeded.
pub open spec fn downloaded_bytes(r: Result<Vec<u8>, WorkerError>) -> Option<Seq<u8>> {
    match r {
        Ok(b) => Some(b@),
        Err(_) => None,
    }
}

impl<T> JobModel<T> {
    pub open spec fn to(self, stage: StageModel<T>) -> JobModel<T> {
        JobModel { stage, ..self }
    }

    pub open spec fn finish(self, r: Result<JobOutcome, WorkerError>) -> (
        JobModel<T>,
        RequestModel<T>,
    ) {
        (self.to(StageModel::Finished), RequestModel::Finish(r))
    }

    /// The last request of a job that went well.
    pub open spec fn mark(self) -> (JobModel<T>, RequestModel<T>) {
        (
            self.to(StageModel::Marking),
            RequestModel::Patch(self.session, SessionStatus::Transcribed),
        )
    }

    /// The session is claimed, as far as the plan asks for it.
    pub open spec fn claimed(self) -> (JobModel<T>, RequestModel<T>) {
        match self.plan.source {
            AudioSource::Storage => (
                self.to(StageModel::ListingParticipants),
                RequestModel::ListParticipants(self.session),
            ),
            AudioSource::Stream => (
                self.to(StageModel::Running),
                RequestModel::FinalizeStream(self.session),
            ),
        }
    }

    /// Gather on; without any audio there is nothing to run.
    pub open spec fn collect(self, c: CollectorModel) -> (JobModel<T>, RequestModel<T>) {
        match c.need() {
            NeedModel::Listing(p) => (
                self.to(StageModel::Collecting(c)),
                RequestModel::ListChunks(self.session, p),
            ),
            NeedModel::Chunk(p, seq) => (
                self.to(StageModel::Collecting(c)),
                RequestModel::Download(self.session, p, seq),
            ),
            NeedModel::Nothing => if c.tracks.len() == 0 {
                self.mark()
            } else {
                (self.to(StageModel::Running), RequestModel::Run(self.session, c.tracks))
            },
        }
    }

    /// Post on; once nothing is left the session is marked.
    pub open spec fn write(self, o: OutputsModel<T>) -> (JobModel<T>, RequestModel<T>) {
        if o.is_drained() {
            self.mark()
        } else {
            (
                self.to(StageModel::Writing(o.rest())),
                RequestModel::Post(self.session, o.post()),
            )
        }
    }

    /// The job waits for a reply of this kind.
    pub open spec fn awaits(self, reply: Reply<T>) -> bool {
        match self.stage {
            StageModel::Claiming => reply is Done,
            StageModel::ListingParticipants => reply is Participants,
            StageModel::Collecting(c) => match c.need() {
                NeedModel::Listing(_) => reply is Chunks,
                NeedModel::Chunk(_, _) => reply is Bytes,
                NeedModel::Nothing => false,
            },
            StageModel::Running => reply is Transcript,
            StageModel::Writing(_) => reply is Done,
            StageModel::Marking => reply is Done,
            StageModel::Finished => false,
        }
    }

    /// The job after a reply, and its next request.
    ///
    /// An error ends the job with that error, with three exceptions: a lost
    /// claim ends it quietly, a best-effort claim may fail, and a chunk that
    /// cannot be downloaded is passed over.
    pub open spec fn next(self, reply: Reply<T>) -> (JobModel<T>, RequestModel<T>) {
        match (self.stage, reply) {
            (StageModel::Claiming, Reply::Done(r)) => match (self.plan.claim, r) {
                (ClaimPolicy::Required, Err(WorkerError::ClaimLost(_))) => self.finish(
                    Ok(JobOutcome::ClaimLost),
                ),
                (ClaimPolicy::Required, Err(e)) => self.finish(Err(e)),
                _ => self.claimed(),
            },
            (StageModel::ListingParticipants, Reply::Participants(r)) => match r {
                Ok(roster) => self.collect(CollectorModel::start(consented(roster@))),
                Err(e) => self.finish(Err(e)),
            },
            (StageModel::Collecting(c), Reply::Chunks(r)) => match r {
                Ok(chunks) => self.collect(c.listed(listed_seqs(chunks@))),
                Err(e) => self.finish(Err(e)),
            },
            (StageModel::Collecting(c), Reply::Bytes(r)) => self.collect(
                c.downloaded(downloaded_bytes(r)),
            ),
            (StageModel::Running, Reply::Transcript(r)) => match r {
                Ok(result) => self.write(OutputsModel::of(result, self.plan.posted)),
                Err(e) => self.finish(Err(e)),
            },
            (StageModel::Writing(o), Reply::Done(r)) => match r {
                Ok(_) => self.write(o),
                Err(e) => self.finish(Err(e)),
            },
            (StageModel::Marking, Reply::Done(r)) => match r {
                Ok(_) => self.finish(Ok(JobOutcome::Transcribed(self.session))),
                Err(e) => self.finish(Err(e)),
            },
            _ => arbitrary(),
        }
    }

    /// The replies fit the job's requests, one after the other.
    pub open spec fn fits(self, replies: Seq<Reply<T>>) -> bool
        decreases replies.len(),
    {
        replies.len() > 0 ==> self.awaits(replies[0]) && self.next(replies[0]).0.fits(
            replies.drop_first(),
        )
    }

    /// The requests that a list of replies brings about.
    pub open spec fn requests(self, replies: Seq<Reply<T>>) -> Seq<RequestModel<T>>
        decreases replies.len(),
    {
        if replies.len() == 0 {
            Seq::empty()
        } else {
            let step = self.next(replies[0]);
            seq![step.1] + step.0.requests(replies.drop_first())
        }
    }
}

/// What a job asks for.
pub enum Request<T> {
    /// Put the session in a state.
    Patch(SessionId, SessionStatus),
    ListParticipants(SessionId),
    ListChunks(SessionId, PseudoId),
    Download(SessionId, PseudoId, ChunkSeq),
    /// Run the pipeline on these tracks.
    Run(SessionId, Vec<SpeakerTrack>),
    /// Flush the session's streaming pipeline.
    FinalizeStream(SessionId),
    Post(SessionId, Post<T>),
    /// The job is over.
    Finish(Result<JobOutcome, WorkerError>),
}

impl<T> View for Request<T> {
    type V = RequestModel<T>;

    open spec fn view(&self) -> RequestModel<T> {
        match self {
            Request::Patch(id, status) => RequestModel::Patch(*id, *status),
            Request::ListParticipants(id) => RequestModel::ListParticipants(*id),
            Request::ListChunks(id, p) => RequestModel::ListChunks(*id, p@),
            Request::Download(id, p, seq) => RequestModel::Download(*id, p@, seq.0),
            Request::Run(id, tracks) => RequestModel::Run(*id, track_contents(tracks@)),
            Request::FinalizeStream(id) => RequestModel::FinalizeStream(*id),
            Request::Post(id, post) => RequestModel::Post(*id, post@),
            Request::Finish(r) => RequestModel::Finish(*r),
        }
    }
}

impl<T> Request<T> {
    /// The request names this session, if it names one.
    pub open spec fn is_about(self, session: SessionId) -> bool {
        match self {
            Request::Patch(id, _) => id == session,
            Request::ListParticipants(id) => id == session,
            Request::ListChunks(id, _) => id == session,
            Request::Download(id, _, _) => id == session,
            Request::Run(id, _) => id == session,
            Request::FinalizeStream(id) => id == session,
            Request::Post(id, _) => id == session,
            Request::Finish(Ok(JobOutcome::Transcribed(id))) => id == session,
            Request::Finish(_) => true,
        }
    }
}

enum Stage<T> {
    Claiming,
    ListingParticipants,
    Collecting(TrackCollector),
    Running,
    Writing(Outputs<T>),
    Marking,
    Finished,
}

/// One session's transcription.
pub struct SessionJob<T> {
    plan: Plan,
    session: SessionId,
    stage: Stage<T>,
}

impl<T> View for SessionJob<T> {
    type V = JobModel<T>;

    closed spec fn view(&self) -> JobModel<T> {
        JobModel {
            plan: self.plan,
            session: self.session,
            stage: match self.stage {
                Stage::Claiming => StageModel::Claiming,
                Stage::ListingParticipants => StageModel::ListingParticipants,
                Stage::Collecting(c) => StageModel::Collecting(c@),
                Stage::Running => StageModel::Running,
                Stage::Writing(o) => StageModel::Writing(o@),
                Stage::Marking => StageModel::Marking,
                Stage::Finished => StageModel::Finished,
            },
        }
    }
}

impl<T> SessionJob<T> {
    pub closed spec fn wf(self) -> bool {
        self.stage matches Stage::Collecting(c) ==> c.wf()
    }

    /// Begin a job with its claim.
    pub fn start(session: SessionId, plan: Plan) -> (r: (SessionJob<T>, Request<T>))
        ensures
            r.0.wf(),
            r.0@ == (JobModel { plan, session, stage: StageModel::<T>::Claiming }),
            r.1@ == RequestModel::<T>::Patch(session, SessionStatus::Transcribing),
            r.1 matches Request::Patch(id, status) && id == session && status
                == SessionStatus::Transcribing,
    {
        (
            SessionJob { plan, session, stage: Stage::Claiming },
            Request::Patch(session, SessionStatus::Transcribing),
        )
    }

    fn at(plan: Plan, session: SessionId, stage: Stage<T>, request: Request<T>) -> (r: (
        SessionJob<T>,
        Request<T>,
    ))
        ensures
            r.0 == (SessionJob { plan, session, stage }),
            r.1 == request,
    {
        (SessionJob { plan, session, stage }, request)
    }

    fn collect(plan: Plan, session: SessionId, c: TrackCollector) -> (r: (
        SessionJob<T>,
        Request<T>,
    ))
        requires
            c.wf(),
        ensures
            r.0.wf(),
            r.0@.session == session,
            r.0@.plan == plan,
            r.1.is_about(session),
            !(r.1 is Finish),
            forall|job: JobModel<T>|
                job.plan == plan && job.session == session ==> (r.0@, r.1@) == #[trigger] job.collect(
                    c@,
                ),
    {
        match c.need() {
            Need::Listing(p) => Self::at(
                plan,
                session,
                Stage::Collecting(c),
                Request::ListChunks(session, p),
            ),
            Need::Chunk(p, seq) => Self::at(
                plan,
                session,
                Stage::Collecting(c),
                Request::Download(session, p, seq),
            ),
            Need::Nothing => {
                let tracks = c.into_tracks();
                if tracks.len() == 0 {
                    Self::at(
                        plan,
                        session,
                        Stage::Marking,
                        Request::Patch(session, SessionStatus::Transcribed),
                    )
                } else {
                    Self::at(plan, session, Stage::Running, Request::Run(session, tracks))
                }
            },
        }
    }

    fn write(plan: Plan, session: SessionId, o: Outputs<T>) -> (r: (SessionJob<T>, Request<T>))
        ensures
            r.0.wf(),
            r.0@.session == session,
            r.0@.plan == plan,
            r.1.is_about(session),
            !(r.1 is Finish),
            forall|job: JobModel<T>|
                job.plan == plan && job.session == session ==> (r.0@, r.1@) == #[trigger] job.write(
                    o@,
                ),
    {
        let mut o = o;
        match o.next_post() {
            Some(post) => Self::at(
                plan,
                session,
                Stage::Writing(o),
                Request::Post(session, post),
            ),
            None => Self::at(
                plan,
                session,
                Stage::Marking,
                Request::Patch(session, SessionStatus::Transcribed),
            ),
        }
    }

    fn finish(plan: Plan, session: SessionId, outcome: Result<JobOutcome, WorkerError>) -> (r: (
        SessionJob<T>,
        Request<T>,
    ))
        ensures
            r.0.wf(),
            r.0@.session == session,
            r.0@.plan == plan,
            r.1 == Request::<T>::Finish(outcome),
            forall|job: JobModel<T>|
                job.plan == plan && job.session == session ==> (r.0@, r.1@)
                    == #[trigger] job.finish(outcome),
    {
        Self::at(plan, session, Stage::Finished, Request::Finish(outcome))
    }

    fn claimed(plan: Plan, session: SessionId) -> (r: (SessionJob<T>, Request<T>))
        ensures
            r.0.wf(),
            r.0@.session == session,
            r.0@.plan == plan,
            r.1.is_about(session),
            !(r.1 is Finish),
            forall|job: JobModel<T>|
                job.plan == plan && job.session == session ==> (r.0@, r.1@)
                    == #[trigger] job.claimed(),
    {
        match plan.source {
            AudioSource::Storage => Self::at(
                plan,
                session,
                Stage::ListingParticipants,
                Request::ListParticipants(session),
            ),
            AudioSource::Stream => Self::at(
                plan,
                session,
                Stage::Running,
                Request::FinalizeStream(session),
            ),
        }
    }

    /// Take in a reply and say what is needed next.
    pub fn step(self, reply: Reply<T>) -> (r: (SessionJob<T>, Request<T>))
        requires
            self.wf(),
            self@.awaits(reply),
        ensures
            r.0.wf(),
            (r.0@, r.1@) == self@.next(reply),
            r.0@.session == self@.session,
            r.0@.plan == self@.plan,
            r.1.is_about(self@.session),
            reply matches Reply::Participants(Err(e)) ==> r.1 == Request::<T>::Finish(Err(e)),
            reply matches Reply::Chunks(Err(e)) ==> r.1 == Request::<T>::Finish(Err(e)),
            reply matches Reply::Transcript(Err(e)) ==> r.1 == Request::<T>::Finish(Err(e)),
            reply matches Reply::Done(Err(e)) ==> !(self@.stage is Claiming) ==> r.1
                == Request::<T>::Finish(Err(e)),
            r.1 matches Request::Finish(Ok(JobOutcome::ClaimLost)) ==> self@.stage is Claiming && (
            reply matches Reply::Done(Err(WorkerError::ClaimLost(_)))),
    {
        let ghost job = self@;
        let plan = self.plan;
        let session = self.session;
        match self.stage {
            Stage::Claiming => match reply {
                Reply::Done(Ok(_)) => Self::claimed(plan, session),
                Reply::Done(Err(e)) => match plan.claim {
                    ClaimPolicy::BestEffort => Self::claimed(plan, session),
                    ClaimPolicy::Required => match e {
                        WorkerError::ClaimLost(_) => Self::finish(
                            plan,
                            session,
                            Ok(JobOutcome::ClaimLost),
                        ),
                        e => Self::finish(plan, session, Err(e)),
                    },
                },
                _ => vstd::pervasive::unreached(),
            },
            Stage::ListingParticipants => match reply {
                Reply::Participants(Ok(roster)) => Self::collect(
                    plan,
                    session,
                    TrackCollector::new(roster),
                ),
                Reply::Participants(Err(e)) => Self::finish(plan, session, Err(e)),
                _ => vstd::pervasive::unreached(),
            },
            Stage::Collecting(c) => match reply {
                Reply::Chunks(Ok(chunks)) => {
                    let mut c = c;
                    c.on_listing(&chunks);
                    Self::collect(plan, session, c)
                },
                Reply::Chunks(Err(e)) => Self::finish(plan, session, Err(e)),
                Reply::Bytes(bytes) => {
                    let mut c = c;
                    match bytes {
                        Ok(b) => c.on_chunk(Some(b)),
                        Err(_) => c.on_chunk(None),
                    }
                    Self::collect(plan, session, c)
                },
                _ => vstd::pervasive::unreached(),
            },
            Stage::Running => match reply {
                Reply::Transcript(Ok(result)) => Self::write(
                    plan,
                    session,
                    Outputs::of(result, plan.posted),
                ),
                Reply::Transcript(Err(e)) => Self::finish(plan, session, Err(e)),
                _ => vstd::pervasive::unreached(),
            },
            Stage::Writing(o) => match reply {
                Reply::Done(Ok(_)) => Self::write(plan, session, o),
                Reply::Done(Err(e)) => Self::finish(plan, session, Err(e)),
                _ => vstd::pervasive::unreached(),
            },
            Stage::Marking => match reply {
                Reply::Done(Ok(_)) => Self::finish(
                    plan,
                    session,
                    Ok(JobOutcome::Transcribed(session)),
                ),
                Reply::Done(Err(e)) => Self::finish(plan, session, Err(e)),
                _ => vstd::pervasive::unreached(),
            },
            Stage::Finished => vstd::pervasive::unreached(),
        }
    }
}

/// The error in a reply.
pub open spec fn reply_error<T>(reply: Reply<T>) -> Option<WorkerError> {
    match reply {
        Reply::Done(Err(e)) => Some(e),
        Reply::Participants(Err(e)) => Some(e),
        Reply::Chunks(Err(e)) => Some(e),
        Reply::Bytes(Err(e)) => Some(e),
        Reply::Transcript(Err(e)) => Some(e),
        _ => None,
    }
}

/// An error ends the job with that error, unless it concerns the download of a
/// chunk, a claim that is made on a best-effort basis, or a claim that was lost.
pub proof fn errors_end_the_job<T>(job: JobModel<T>, reply: Reply<T>)
    requires
        job.awaits(reply),
        reply_error(reply) is Some,
        !(reply is Bytes),
        job.stage is Claiming ==> job.plan.claim == ClaimPolicy::Required && !(reply_error(
            reply,
        )->0 is ClaimLost),
    ensures
        job.next(reply) == job.finish(Err(reply_error(reply)->0)),
{
}

/// Of two workers that claim a session, the one that is refused drops it
/// without an error, and without asking for anything more.
pub proof fn lost_claim_ends_quietly<T>(job: JobModel<T>, owner: SessionId)
    requires
        job.stage is Claiming,
        job.plan.claim == ClaimPolicy::Required,
    ensures
        job.next(Reply::Done(Err(WorkerError::ClaimLost(owner)))) == job.finish(
            Ok(JobOutcome::ClaimLost),
        ),
        forall|reply: Reply<T>| !job.finish(Ok(JobOutcome::ClaimLost)).0.awaits(reply),
{
}

/// A chunk that cannot be downloaded never ends the job.
pub proof fn failed_downloads_are_passed_over<T>(job: JobModel<T>, e: WorkerError)
    requires
        job.awaits(Reply::<T>::Bytes(Err(e))),
    ensures
        !(job.next(Reply::<T>::Bytes(Err(e))).1 is Finish),
{
}

/// A session without audio is marked transcribed, and the pipeline is not run.
pub proof fn no_audio_is_marked_at_once<T>(job: JobModel<T>, c: CollectorModel)
    requires
        c.need() is Nothing,
        c.tracks.len() == 0,
    ensures
        job.collect(c).1 == RequestModel::<T>::Patch(job.session, SessionStatus::Transcribed),
        job.collect(c).0.stage is Marking,
{
}

/// The requests of a job that is told `n` times that all went well.
pub open spec fn acknowledged<T>(job: JobModel<T>, n: nat) -> Seq<RequestModel<T>>
    decreases n,
{
    if n == 0 {
        Seq::empty()
    } else {
        let step = job.next(Reply::Done(Ok(())));
        seq![step.1] + acknowledged(step.0, (n - 1) as nat)
    }
}

/// A session is marked transcribed when, and only when, everything there is to
/// post has been posted and acknowledged: the requests are those of the plan,
/// in order, and then the mark.
pub proof fn outputs_are_posted_then_marked<T>(job: JobModel<T>, o: OutputsModel<T>)
    ensures
        ({
            let first = job.write(o);
            seq![first.1] + acknowledged(first.0, o.plan().len()) == o.plan().map_values(
                |p: PostModel<T>| RequestModel::Post(job.session, p),
            ).push(RequestModel::Patch(job.session, SessionStatus::Transcribed))
        }),
    decreases o.size(),
{
    let first = job.write(o);
    let as_post = |p: PostModel<T>| RequestModel::Post(job.session, p);
    if o.is_drained() {
        assert(seq![first.1] + acknowledged(first.0, o.plan().len()) =~= o.plan().map_values(
            as_post,
        ).push(first.1));
    } else {
        let rest = o.rest();
        outputs_are_posted_then_marked(job, rest);
        let second = job.write(rest);
        assert(first.0.next(Reply::Done(Ok(()))) == second);
        assert(acknowledged(first.0, o.plan().len()) =~= seq![second.1] + acknowledged(
            second.0,
            rest.plan().len(),
        ));
        assert(o.plan().map_values(as_post) =~= seq![first.1] + rest.plan().map_values(as_post));
        assert(seq![first.1] + acknowledged(first.0, o.plan().len()) =~= o.plan().map_values(
            as_post,
        ).push(RequestModel::Patch(job.session, SessionStatus::Transcribed)));
    }
}

/// A job ends with a transcribed session only right after the request that
/// marks that session.
pub proof fn transcribed_means_marked<T>(
    job: JobModel<T>,
    replies: Seq<Reply<T>>,
    i: int,
    session: SessionId,
)
    requires
        !(job.stage is Marking),
        job.fits(replies),
        0 <= i < job.requests(replies).len(),
        job.requests(replies)[i] == RequestModel::<T>::Finish(
            Ok(JobOutcome::Transcribed(session)),
        ),
    ensures
        i > 0,
        session == job.session,
        job.requests(replies)[i - 1] == RequestModel::<T>::Patch(
            session,
            SessionStatus::Transcribed,
        ),
    decreases replies.len(),
{
    reveal_with_fuel(JobModel::fits, 4);
    reveal_with_fuel(JobModel::requests, 4);
    let step = job.next(replies[0]);
    let rest = replies.drop_first();
    let all = job.requests(replies);
    assert(all[0] == step.1);
    if i > 0 {
        assert(all[i] == step.0.requests(rest)[i - 1]);
        assert(step.0.session == job.session);
        if step.0.stage is Marking {
            assert(step.1 == RequestModel::<T>::Patch(job.session, SessionStatus::Transcribed));
            let last = step.0.next(rest[0]);
            assert(last.0.stage is Finished);
            if i > 1 {
                assert(step.0.requests(rest)[i - 1] == last.0.requests(rest.drop_first())[i - 2]);
                assert(last.0.fits(rest.drop_first()));
            }
        } else {
            transcribed_means_marked(step.0, rest, i - 1, session);
            assert(all[i - 1] == step.0.requests(rest)[i - 2]);
        }
    }
}

/// A request asks for nobody's audio but that of the speakers `allowed`.
pub open spec fn asks_within<T>(request: RequestModel<T>, allowed: Seq<Seq<char>>) -> bool {
    match request {
        RequestModel::ListChunks(_, p) => allowed.contains(p),
        RequestModel::Download(_, p, _) => allowed.contains(p),
        RequestModel::Run(_, tracks) => forall|i: int|
            0 <= i < tracks.len() ==> allowed.contains((#[trigger] tracks[i]).0),
        _ => true,
    }
}

/// The job gathers nobody's audio but that of the speakers `allowed`.
pub open spec fn gathers_within<T>(job: JobModel<T>, allowed: Seq<Seq<char>>) -> bool {
    &&& !(job.stage is Claiming) && !(job.stage is ListingParticipants)
    &&& job.stage matches StageModel::Collecting(c) ==> collects_within(c, allowed)
}

pub open spec fn collects_within(c: CollectorModel, allowed: Seq<Seq<char>>) -> bool {
    &&& forall|i: int|
        0 <= i < c.speakers.len() ==> allowed.contains(#[trigger] c.speakers[i])
    &&& forall|i: int|
        0 <= i < c.tracks.len() ==> allowed.contains((#[trigger] c.tracks[i]).0)
}

proof fn collect_stays_within<T>(job: JobModel<T>, c: CollectorModel, allowed: Seq<Seq<char>>)
    requires
        collects_within(c, allowed),
    ensures
        gathers_within(job.collect(c).0, allowed),
        asks_within(job.collect(c).1, allowed),
{
}

proof fn next_stays_within<T>(job: JobModel<T>, reply: Reply<T>, allowed: Seq<Seq<char>>)
    requires
        gathers_within(job, allowed),
        job.awaits(reply),
    ensures
        gathers_within(job.next(reply).0, allowed),
        asks_within(job.next(reply).1, allowed),
{
    if let StageModel::Collecting(c) = job.stage {
        assert(allowed.contains(c.speakers[0]));
        match reply {
            Reply::Chunks(Ok(chunks)) => {
                let d = c.listed(listed_seqs(chunks@));
                assert forall|i: int| 0 <= i < d.speakers.len() implies allowed.contains(
                    #[trigger] d.speakers[i],
                ) by {
                    if chunks@.len() == 0 {
                        assert(d.speakers[i] == c.speakers[i + 1]);
                    }
                }
                collect_stays_within(job, d, allowed);
            },
            Reply::Bytes(r) => {
                let d = c.downloaded(downloaded_bytes(r));
                assert forall|i: int| 0 <= i < d.speakers.len() implies allowed.contains(
                    #[trigger] d.speakers[i],
                ) by {
                    if d.order is None {
                        assert(d.speakers[i] == c.speakers[i + 1]);
                    }
                }
                assert forall|i: int| 0 <= i < d.tracks.len() implies allowed.contains(
                    (#[trigger] d.tracks[i]).0,
                ) by {
                    if i < c.tracks.len() {
                        assert(d.tracks[i] == c.tracks[i]);
                    }
                }
                collect_stays_within(job, d, allowed);
            },
            _ => {},
        }
    }
}

proof fn requests_stay_within<T>(
    job: JobModel<T>,
    replies: Seq<Reply<T>>,
    allowed: Seq<Seq<char>>,
)
    requires
        gathers_within(job, allowed),
        job.fits(replies),
    ensures
        forall|i: int|
            0 <= i < job.requests(replies).len() ==> asks_within(
                #[trigger] job.requests(replies)[i],
                allowed,
            ),
    decreases replies.len(),
{
    if replies.len() > 0 {
        next_stays_within(job, replies[0], allowed);
        let step = job.next(replies[0]);
        let rest = replies.drop_first();
        requests_stay_within(step.0, rest, allowed);
        let all = job.requests(replies);
        assert forall|i: int| 0 <= i < all.len() implies asks_within(#[trigger] all[i], allowed) by {
            if i > 0 {
                assert(all[i] == step.0.requests(rest)[i - 1]);
            }
        }
    }
}

/// From the moment the roster is known, whatever the replies, a job lists,
/// downloads and transcribes the audio of consenting participants only.
pub proof fn only_consented_audio_is_touched<T>(
    job: JobModel<T>,
    roster: Vec<Participant>,
    replies: Seq<Reply<T>>,
)
    requires
        job.stage is ListingParticipants,
        job.next(Reply::Participants(Ok(roster))).0.fits(replies),
    ensures
        asks_within(job.next(Reply::Participants(Ok(roster))).1, consented(roster@)),
        forall|i: int|
            0 <= i < job.next(Reply::Participants(Ok(roster))).0.requests(replies).len()
                ==> asks_within(
                #[trigger] job.next(Reply::Participants(Ok(roster))).0.requests(replies)[i],
                consented(roster@),
            ),
{
    let allowed = consented(roster@);
    let c = CollectorModel::start(allowed);
    assert forall|i: int| 0 <= i < c.speakers.len() implies allowed.contains(
        #[trigger] c.speakers[i],
    ) by {
        assert(allowed[i] == c.speakers[i]);
    }
    collect_stays_within(job, c, allowed);
    requests_stay_within(job.collect(c).0, replies, allowed);
}

impl<T> JobModel<T> {
    /// The job after a list of replies, and its last request; `request` is the
    /// one that the first reply answers.
    pub open spec fn run(self, request: RequestModel<T>, replies: Seq<Reply<T>>) -> (
        JobModel<T>,
        RequestModel<T>,
    )
        decreases replies.len(),
    {
        if replies.len() == 0 {
            (self, request)
        } else {
            let step = self.next(replies[0]);
            step.0.run(step.1, replies.drop_first())
        }
    }
}

/// The replies are those of a script: the listing, then one download after the
/// other.
pub open spec fn answers<T>(replies: Seq<Reply<T>>, script: SpeakerScript) -> bool {
    &&& replies.len() == 1 + script.downloads.len()
    &&& replies[0] matches Reply::Chunks(Ok(chunks)) && listed_seqs(chunks@) == script.listing
    &&& answers_downloads(replies.drop_first(), script.downloads)
}

/// The replies are the outcomes of downloads.
pub open spec fn answers_downloads<T>(
    replies: Seq<Reply<T>>,
    downloads: Seq<Option<Seq<u8>>>,
) -> bool {
    &&& replies.len() == downloads.len()
    &&& forall|i: int|
        0 <= i < replies.len() ==> (#[trigger] replies[i] matches Reply::Bytes(r)
            && downloaded_bytes(r) == downloads[i])
}

/// The replies are those of scripts, one after the other.
pub open spec fn answers_all<T>(replies: Seq<Reply<T>>, scripts: Seq<SpeakerScript>) -> bool
    decreases scripts.len(),
{
    if scripts.len() == 0 {
        replies.len() == 0
    } else {
        let n = 1 + scripts[0].downloads.len() as int;
        &&& n <= replies.len()
        &&& answers(replies.take(n), scripts[0])
        &&& answers_all(replies.skip(n), scripts.drop_first())
    }
}

proof fn run_in_two<T>(
    job: JobModel<T>,
    request: RequestModel<T>,
    first: Seq<Reply<T>>,
    second: Seq<Reply<T>>,
)
    ensures
        job.run(request, first + second) == job.run(request, first).0.run(
            job.run(request, first).1,
            second,
        ),
    decreases first.len(),
{
    if first.len() == 0 {
        assert(first + second =~= second);
    } else {
        let step = job.next(first[0]);
        assert((first + second).drop_first() =~= first.drop_first() + second);
        run_in_two(step.0, step.1, first.drop_first(), second);
    }
}

proof fn run_downloads<T>(
    job: JobModel<T>,
    c: CollectorModel,
    replies: Seq<Reply<T>>,
    downloads: Seq<Option<Seq<u8>>>,
)
    requires
        answers_downloads(replies, downloads),
        downloads.len() > 0 ==> c.speakers.len() > 0 && c.order is Some && c.order->0.len()
            == downloads.len(),
    ensures
        ({
            let at = job.collect(c);
            at.0.run(at.1, replies) == job.collect(c.downloads(downloads))
        }),
    decreases replies.len(),
{
    if replies.len() > 0 {
        let at = job.collect(c);
        let d = c.downloaded(downloads[0]);
        assert(replies[0] matches Reply::Bytes(r) && downloaded_bytes(r) == downloads[0]);
        assert(at.0.next(replies[0]) == job.collect(d));
        let rest = replies.drop_first();
        assert forall|i: int| 0 <= i < rest.len() implies (#[trigger] rest[i] matches Reply::Bytes(
            r,
        ) && downloaded_bytes(r) == downloads.drop_first()[i]) by {
            assert(rest[i] == replies[i + 1]);
        }
        run_downloads(job, d, rest, downloads.drop_first());
    }
}

proof fn run_speaker<T>(
    job: JobModel<T>,
    c: CollectorModel,
    replies: Seq<Reply<T>>,
    script: SpeakerScript,
)
    requires
        c.speakers.len() > 0,
        c.order is None,
        script.wf(),
        answers(replies, script),
    ensures
        ({
            let at = job.collect(c);
            at.0.run(at.1, replies) == job.collect(c.replies(script))
        }),
{
    let at = job.collect(c);
    let l = c.listed(script.listing);
    assert(at.0.next(replies[0]) == job.collect(l));
    ascending_is_sorted(script.listing);
    run_downloads(job, l, replies.drop_first(), script.downloads);
}

proof fn run_speakers<T>(
    job: JobModel<T>,
    c: CollectorModel,
    replies: Seq<Reply<T>>,
    scripts: Seq<SpeakerScript>,
)
    requires
        c.order is None,
        scripts.len() == c.speakers.len(),
        forall|i: int| 0 <= i < scripts.len() ==> (#[trigger] scripts[i]).wf(),
        answers_all(replies, scripts),
    ensures
        ({
            let at = job.collect(c);
            at.0.run(at.1, replies) == job.collect(c.all_replies(scripts))
        }),
    decreases scripts.len(),
{
    let at = job.collect(c);
    if scripts.len() > 0 {
        let n = 1 + scripts[0].downloads.len() as int;
        let d = c.replies(scripts[0]);
        let rest = scripts.drop_first();
        run_speaker(job, c, replies.take(n), scripts[0]);
        one_speaker(c, scripts[0]);
        assert forall|i: int| 0 <= i < rest.len() implies (#[trigger] rest[i]).wf() by {
            assert(rest[i] == scripts[i + 1]);
        }
        run_speakers(job, d, replies.skip(n), rest);
        assert(replies =~= replies.take(n) + replies.skip(n));
        run_in_two(at.0, at.1, replies.take(n), replies.skip(n));
    }
}

/// A job that works from storage, answered in full, runs the pipeline on one
/// track for each consenting participant who has chunks, with all the audio that
/// could be downloaded; where there is no track, it marks the session at once.
pub proof fn stored_audio_is_run_in_full<T>(
    job: JobModel<T>,
    roster: Vec<Participant>,
    scripts: Seq<SpeakerScript>,
    replies: Seq<Reply<T>>,
)
    requires
        job.stage is ListingParticipants,
        scripts.len() == consented(roster@).len(),
        forall|i: int| 0 <= i < scripts.len() ==> (#[trigger] scripts[i]).wf(),
        answers_all(replies, scripts),
    ensures
        ({
            let first = job.next(Reply::Participants(Ok(roster)));
            let tracks = expected_tracks(consented(roster@), scripts);
            first.0.run(first.1, replies) == if tracks.len() == 0 {
                job.mark()
            } else {
                (job.to(StageModel::Running), RequestModel::Run(job.session, tracks))
            }
        }),
{
    let c = CollectorModel::start(consented(roster@));
    run_speakers(job, c, replies, scripts);
    tracks_hold_each_speakers_audio(c, scripts);
    assert(c.tracks + expected_tracks(c.speakers, scripts) =~= expected_tracks(
        c.speakers,
        scripts,
    ));
}

/// The session that a request is about; `None` for a report that names none.
pub open spec fn session_of<T>(request: RequestModel<T>) -> Option<SessionId> {
    match request {
        RequestModel::Patch(id, _) => Some(id),
        RequestModel::ListParticipants(id) => Some(id),
        RequestModel::ListChunks(id, _) => Some(id),
        RequestModel::Download(id, _, _) => Some(id),
        RequestModel::Run(id, _) => Some(id),
        RequestModel::FinalizeStream(id) => Some(id),
        RequestModel::Post(id, _) => Some(id),
        RequestModel::Finish(Ok(JobOutcome::Transcribed(id))) => Some(id),
        RequestModel::Finish(_) => None,
    }
}

/// Whatever the replies, every request of a job is about the session that the
/// job was started for.
pub proof fn every_request_names_the_session<T>(
    job: JobModel<T>,
    replies: Seq<Reply<T>>,
    i: int,
)
    requires
        job.fits(replies),
        0 <= i < job.requests(replies).len(),
    ensures
        session_of(job.requests(replies)[i]) is Some || job.requests(replies)[i] is Finish,
        session_of(job.requests(replies)[i]) matches Some(id) ==> id == job.session,
    decreases replies.len(),
{
    let step = job.next(replies[0]);
    assert(step.0.session == job.session);
    if i > 0 {
        assert(job.requests(replies)[i] == step.0.requests(replies.drop_first())[i - 1]);
        every_request_names_the_session(step.0, replies.drop_first(), i - 1);
    } else {
        assert(job.requests(replies)[0] == step.1);
    }
}

/// What is asked for one speaker of a session: the listing, then each listed
/// chunk.
pub open spec fn speaker_requests<T>(
    session: SessionId,
    speaker: Seq<char>,
    order: Seq<u32>,
) -> Seq<RequestModel<T>> {
    seq![RequestModel::ListChunks(session, speaker)] + Seq::new(
        order.len(),
        |k: int| RequestModel::Download(session, speaker, order[k]),
    )
}

/// What is asked for the speakers of a session, one after the other.
pub open spec fn speakers_requests<T>(
    session: SessionId,
    speakers: Seq<Seq<char>>,
    orders: Seq<Seq<u32>>,
) -> Seq<RequestModel<T>>
    decreases speakers.len(),
{
    if speakers.len() == 0 {
        Seq::empty()
    } else {
        speaker_requests(session, speakers[0], orders[0]) + speakers_requests(
            session,
            speakers.drop_first(),
            orders.drop_first(),
        )
    }
}

/// `order` holds the listed numbers, smallest first.
pub open spec fn smallest_first(order: Seq<u32>, listing: Seq<u32>) -> bool {
    &&& order.to_multiset() == listing.to_multiset()
    &&& forall|i: int, j: int| 0 <= i <= j < order.len() ==> order[i] <= order[j]
}

proof fn requests_in_two<T>(
    job: JobModel<T>,
    request: RequestModel<T>,
    first: Seq<Reply<T>>,
    second: Seq<Reply<T>>,
)
    ensures
        job.requests(first + second) == job.requests(first) + job.run(request, first).0.requests(
            second,
        ),
    decreases first.len(),
{
    if first.len() == 0 {
        assert(first + second =~= second);
        assert(job.requests(first + second) =~= job.requests(first) + job.requests(second));
    } else {
        let step = job.next(first[0]);
        assert((first + second).drop_first() =~= first.drop_first() + second);
        requests_in_two(step.0, step.1, first.drop_first(), second);
        assert(job.requests(first + second) =~= job.requests(first) + job.run(
            request,
            first,
        ).0.requests(second));
    }
}

proof fn asked_downloads<T>(
    job: JobModel<T>,
    c: CollectorModel,
    replies: Seq<Reply<T>>,
    downloads: Seq<Option<Seq<u8>>>,
)
    requires
        answers_downloads(replies, downloads),
        c.speakers.len() > 0,
        c.order is Some,
        c.order->0.len() == downloads.len() > 0,
    ensures
        ({
            let at = job.collect(c);
            seq![at.1] + at.0.requests(replies) == Seq::new(
                c.order->0.len(),
                |k: int| RequestModel::<T>::Download(job.session, c.speakers[0], c.order->0[k]),
            ).push(job.collect(c.downloads(downloads)).1)
        }),
    decreases replies.len(),
{
    let at = job.collect(c);
    let d = c.downloaded(downloads[0]);
    let order = c.order->0;
    assert(replies[0] matches Reply::Bytes(r) && downloaded_bytes(r) == downloads[0]);
    assert(at.0.next(replies[0]) == job.collect(d));
    let rest = replies.drop_first();
    assert forall|i: int| 0 <= i < rest.len() implies (#[trigger] rest[i] matches Reply::Bytes(r)
        && downloaded_bytes(r) == downloads.drop_first()[i]) by {
        assert(rest[i] == replies[i + 1]);
    }
    let next = job.collect(d);
    let asked = Seq::new(
        order.len(),
        |k: int| RequestModel::<T>::Download(job.session, c.speakers[0], order[k]),
    );
    let last = job.collect(c.downloads(downloads)).1;
    assert(at.0.requests(replies) =~= seq![next.1] + next.0.requests(rest));
    if rest.len() == 0 {
        assert(c.downloads(downloads) == d.downloads(downloads.drop_first()));
        assert(d.downloads(downloads.drop_first()) == d);
        assert(next.0.requests(rest) =~= Seq::empty());
        assert(seq![at.1] + at.0.requests(replies) =~= asked.push(last));
    } else {
        asked_downloads(job, d, rest, downloads.drop_first());
        assert(c.downloads(downloads) == d.downloads(downloads.drop_first()));
        assert(seq![at.1] + at.0.requests(replies) =~= asked.push(last));
    }
}

proof fn asked_speaker<T>(
    job: JobModel<T>,
    c: CollectorModel,
    replies: Seq<Reply<T>>,
    script: SpeakerScript,
    order: Seq<u32>,
)
    requires
        c.speakers.len() > 0,
        c.order is None,
        script.wf(),
        answers(replies, script),
        smallest_first(order, script.listing),
    ensures
        ({
            let at = job.collect(c);
            seq![at.1] + at.0.requests(replies) == speaker_requests::<T>(
                job.session,
                c.speakers[0],
                order,
            ).push(job.collect(c.replies(script)).1)
        }),
{
    let at = job.collect(c);
    let l = c.listed(script.listing);
    let next = job.collect(l);
    let rest = replies.drop_first();
    assert(at.0.next(replies[0]) == next);
    assert(at.0.requests(replies) =~= seq![next.1] + next.0.requests(rest));
    ascending_is_sorted(script.listing);
    sorted_is_ascending(script.listing, order);
    let asked = speaker_requests::<T>(job.session, c.speakers[0], order);
    let last = job.collect(c.replies(script)).1;
    if script.listing.len() == 0 {
        assert(next.0.requests(rest) =~= Seq::empty());
        assert(l.downloads(script.downloads) == l);
        assert(seq![at.1] + at.0.requests(replies) =~= asked.push(last));
    } else {
        asked_downloads(job, l, rest, script.downloads);
        assert(seq![at.1] + at.0.requests(replies) =~= asked.push(last));
    }
}

proof fn asked_speakers<T>(
    job: JobModel<T>,
    c: CollectorModel,
    replies: Seq<Reply<T>>,
    scripts: Seq<SpeakerScript>,
    orders: Seq<Seq<u32>>,
)
    requires
        c.order is None,
        scripts.len() == c.speakers.len(),
        orders.len() == scripts.len(),
        forall|i: int| 0 <= i < scripts.len() ==> (#[trigger] scripts[i]).wf(),
        forall|i: int|
            0 <= i < scripts.len() ==> smallest_first(
                #[trigger] orders[i],
                scripts[i].listing,
            ),
        answers_all(replies, scripts),
    ensures
        ({
            let at = job.collect(c);
            seq![at.1] + at.0.requests(replies) == speakers_requests::<T>(
                job.session,
                c.speakers,
                orders,
            ).push(job.collect(c.all_replies(scripts)).1)
        }),
    decreases scripts.len(),
{
    let at = job.collect(c);
    let asked = speakers_requests::<T>(job.session, c.speakers, orders);
    let last = job.collect(c.all_replies(scripts)).1;
    if scripts.len() == 0 {
        assert(seq![at.1] + at.0.requests(replies) =~= asked.push(last));
    } else {
        let n = 1 + scripts[0].downloads.len() as int;
        let d = c.replies(scripts[0]);
        let next = job.collect(d);
        let mine = replies.take(n);
        let others = replies.skip(n);
        let later = scripts.drop_first();
        assert(smallest_first(orders[0], scripts[0].listing));
        asked_speaker(job, c, mine, scripts[0], orders[0]);
        run_speaker(job, c, mine, scripts[0]);
        one_speaker(c, scripts[0]);
        assert forall|i: int| 0 <= i < later.len() implies (#[trigger] later[i]).wf() by {
            assert(later[i] == scripts[i + 1]);
        }
        assert forall|i: int| 0 <= i < later.len() implies smallest_first(
            #[trigger] orders.drop_first()[i],
            later[i].listing,
        ) by {
            assert(orders.drop_first()[i] == orders[i + 1]);
        }
        asked_speakers(job, d, others, later, orders.drop_first());
        assert(replies =~= mine + others);
        requests_in_two(at.0, at.1, mine, others);
        let first_asked = speaker_requests::<T>(job.session, c.speakers[0], orders[0]);
        let rest_asked = speakers_requests::<T>(
            job.session,
            d.speakers,
            orders.drop_first(),
        );
        assert(seq![at.1] + at.0.requests(mine) =~= first_asked.push(next.1));
        assert(seq![next.1] + next.0.requests(others) =~= rest_asked.push(last));
        assert(seq![at.1] + at.0.requests(replies) =~= (seq![at.1] + at.0.requests(mine))
            + next.0.requests(others));
        assert(first_asked.push(next.1) + next.0.requests(others) =~= first_asked + (seq![next.1]
            + next.0.requests(others)));
        assert(seq![at.1] + at.0.requests(replies) =~= asked.push(last));
    }
}

/// A job that works from storage asks, in the session it was started for, for
/// each consenting speaker's listing and then for the listed chunks, smallest
/// number first: the k-th download behind a listing is of its k-th smallest
/// number. Only then does it run the pipeline, on 48 kHz tracks, or mark the
/// session where there is no track.
pub proof fn stored_audio_is_asked_for_in_order<T>(
    job: JobModel<T>,
    roster: Vec<Participant>,
    scripts: Seq<SpeakerScript>,
    orders: Seq<Seq<u32>>,
    replies: Seq<Reply<T>>,
)
    requires
        job.stage is ListingParticipants,
        scripts.len() == consented(roster@).len(),
        orders.len() == scripts.len(),
        forall|i: int| 0 <= i < scripts.len() ==> (#[trigger] scripts[i]).wf(),
        forall|i: int|
            0 <= i < scripts.len() ==> smallest_first(
                #[trigger] orders[i],
                scripts[i].listing,
            ),
        answers_all(replies, scripts),
    ensures
        ({
            let first = job.next(Reply::Participants(Ok(roster)));
            let tracks = expected_tracks(consented(roster@), scripts);
            &&& seq![first.1] + first.0.requests(replies) == speakers_requests::<T>(
                job.session,
                consented(roster@),
                orders,
            ).push(
                if tracks.len() == 0 {
                    RequestModel::Patch(job.session, SessionStatus::Transcribed)
                } else {
                    RequestModel::Run(job.session, tracks)
                },
            )
            &&& forall|i: int| 0 <= i < tracks.len() ==> (#[trigger] tracks[i]).2 == 48_000
        }),
{
    let c = CollectorModel::start(consented(roster@));
    asked_speakers(job, c, replies, scripts, orders);
    tracks_hold_each_speakers_audio(c, scripts);
    assert(c.tracks + expected_tracks(c.speakers, scripts) =~= expected_tracks(
        c.speakers,
        scripts,
    ));
    tracks_are_48_khz(c.speakers, scripts);
}

proof fn tracks_are_48_khz(speakers: Seq<Seq<char>>, scripts: Seq<SpeakerScript>)
    ensures
        forall|i: int|
            0 <= i < expected_tracks(speakers, scripts).len() ==> (
            #[trigger] expected_tracks(speakers, scripts)[i]).2 == 48_000,
    decreases speakers.len(),
{
    if speakers.len() > 0 {
        tracks_are_48_khz(speakers.drop_first(), scripts.drop_first());
        let rest = expected_tracks(speakers.drop_first(), scripts.drop_first());
        let all = expected_tracks(speakers, scripts);
        assert forall|i: int| 0 <= i < all.len() implies (#[trigger] all[i]).2 == 48_000 by {
            if scripts[0].listing.len() == 0 {
                assert(all[i] == rest[i]);
            } else if i > 0 {
                assert(all[i] == rest[i - 1]);
            }
        }
    }
}

/// A failure is reported as it came: when a listing, the pipeline, a post, the
/// last mark or a required claim fails with `e`, the job is over and `e` is its
/// outcome. The one exception is a claim that another worker has.
pub proof fn failures_are_reported<T>(job: JobModel<T>, e: WorkerError)
    ensures
        job.stage is Claiming && job.plan.claim is Required && !(e is ClaimLost) ==> {
            let step = job.next(Reply::Done(Err(e)));
            step.1 == RequestModel::<T>::Finish(Err(e)) && step.0.stage is Finished
        },
        job.stage is ListingParticipants ==> {
            let step = job.next(Reply::Participants(Err(e)));
            step.1 == RequestModel::<T>::Finish(Err(e)) && step.0.stage is Finished
        },
        job.stage is Collecting ==> {
            let step = job.next(Reply::Chunks(Err(e)));
            step.1 == RequestModel::<T>::Finish(Err(e)) && step.0.stage is Finished
        },
        job.stage is Running ==> {
            let step = job.next(Reply::Transcript(Err(e)));
            step.1 == RequestModel::<T>::Finish(Err(e)) && step.0.stage is Finished
        },
        job.stage is Writing || job.stage is Marking ==> {
            let step = job.next(Reply::Done(Err(e)));
            step.1 == RequestModel::<T>::Finish(Err(e)) && step.0.stage is Finished
        },
{
}

/// A job ends for the reason that its last reply gives, and for no other: with
/// an error only where the reply carries that error, as lost only where a
/// required claim was answered so, as transcribed only where the last mark was
/// accepted.
pub proof fn jobs_end_for_a_reason<T>(job: JobModel<T>, reply: Reply<T>)
    requires
        job.awaits(reply),
    ensures
        job.next(reply).1 matches RequestModel::Finish(Err(e)) ==> {
            ||| reply == Reply::<T>::Done(Err(e))
            ||| reply == Reply::<T>::Participants(Err(e))
            ||| reply == Reply::<T>::Chunks(Err(e))
            ||| reply == Reply::<T>::Transcript(Err(e))
        },
        job.next(reply).1 == RequestModel::<T>::Finish(Ok(JobOutcome::ClaimLost)) ==> {
            &&& job.stage is Claiming
            &&& job.plan.claim is Required
            &&& reply matches Reply::Done(Err(WorkerError::ClaimLost(_)))
        },
        job.next(reply).1 matches RequestModel::Finish(Ok(JobOutcome::Transcribed(id))) ==> {
            &&& id == job.session
            &&& job.stage is Marking
            &&& reply matches Reply::Done(Ok(_))
        },
        reply is Bytes ==> !(job.next(reply).1 is Finish),
{
}

/// A claim that another worker has ends a job that requires it, as lost; a job
/// that claims on a best-effort basis goes on whatever the answer, and every job
/// goes on once it has its claim: with the roster where the audio is stored, with
/// the stream where it was streamed.
pub proof fn claims_are_answered<T>(job: JobModel<T>, owner: SessionId, r: Result<(), WorkerError>)
    requires
        job.stage is Claiming,
    ensures
        job.plan.claim is Required ==> job.next(
            Reply::Done(Err(WorkerError::ClaimLost(owner))),
        ).1 == RequestModel::<T>::Finish(Ok(JobOutcome::ClaimLost)),
        r is Ok || job.plan.claim is BestEffort ==> job.next(Reply::Done(r)).1 == (
        if job.plan.source is Storage {
            RequestModel::<T>::ListParticipants(job.session)
        } else {
            RequestModel::<T>::FinalizeStream(job.session)
        }),
{
}

/// The beats in a list of requests, end to end.
pub open spec fn posted_beats<T>(requests: Seq<RequestModel<T>>) -> Seq<BeatWire<T>>
    decreases requests.len(),
{
    if requests.len() == 0 {
        Seq::empty()
    } else {
        (match requests[0] {
            RequestModel::Post(_, PostModel::Beats(rows)) => rows,
            _ => Seq::empty(),
        }) + posted_beats(requests.drop_first())
    }
}

/// The scenes in a list of requests, end to end.
pub open spec fn posted_scenes<T>(requests: Seq<RequestModel<T>>) -> Seq<SceneWire<T>>
    decreases requests.len(),
{
    if requests.len() == 0 {
        Seq::empty()
    } else {
        (match requests[0] {
            RequestModel::Post(_, PostModel::Scenes(rows)) => rows,
            _ => Seq::empty(),
        }) + posted_scenes(requests.drop_first())
    }
}

/// The segments in a list of requests, end to end.
pub open spec fn posted_segments<T>(requests: Seq<RequestModel<T>>) -> Seq<SegmentWire<T>>
    decreases requests.len(),
{
    if requests.len() == 0 {
        Seq::empty()
    } else {
        (match requests[0] {
            RequestModel::Post(_, PostModel::Segments(rows)) => rows,
            _ => Seq::empty(),
        }) + posted_segments(requests.drop_first())
    }
}

proof fn posted_rows_of_plan<T>(session: SessionId, plan: Seq<PostModel<T>>, mark: RequestModel<T>)
    requires
        !(mark is Post),
    ensures
        ({
            let requests = plan.map_values(|p: PostModel<T>| RequestModel::Post(session, p)).push(
                mark,
            );
            &&& posted_segments(requests) == segment_rows(plan)
            &&& posted_beats(requests) == beat_rows(plan)
            &&& posted_scenes(requests) == scene_rows(plan)
        }),
    decreases plan.len(),
{
    let as_post = |p: PostModel<T>| RequestModel::Post(session, p);
    let requests = plan.map_values(as_post).push(mark);
    let rest = requests.drop_first();
    if plan.len() == 0 {
        assert(rest =~= Seq::empty());
        assert(posted_segments(rest) =~= Seq::empty());
        assert(posted_beats(rest) =~= Seq::empty());
        assert(posted_scenes(rest) =~= Seq::empty());
        assert(posted_segments(requests) =~= segment_rows(plan));
        assert(posted_beats(requests) =~= beat_rows(plan));
        assert(posted_scenes(requests) =~= scene_rows(plan));
    } else {
        assert(requests[0] == as_post(plan[0]));
        assert(rest =~= plan.drop_first().map_values(as_post).push(mark));
        posted_rows_of_plan(session, plan.drop_first(), mark);
    }
}

/// What a pipeline run gave is posted in full before the session is marked: with
/// every post accepted, the requests are posts in the job's session and then the
/// mark; they hold one row for each beat and each scene of the result, whatever
/// was posted before, and one for each segment that was not, in order; and each
/// row says what the pipeline said.
pub proof fn transcript_is_posted_in_full<T>(job: JobModel<T>, result: PipelineResult<T>)
    requires
        job.stage is Running,
    ensures
        ({
            let first = job.next(Reply::Transcript(Ok(result)));
            let n = OutputsModel::of(result, job.plan.posted).plan().len();
            let all = seq![first.1] + acknowledged(first.0, n);
            &&& all.len() == n + 1
            &&& all[n as int] == RequestModel::<T>::Patch(
                job.session,
                SessionStatus::Transcribed,
            )
            &&& forall|i: int|
                0 <= i < n ==> (#[trigger] all[i] matches RequestModel::Post(id, _) && id
                    == job.session)
            &&& posted_beats(all).len() == result.beats@.len()
            &&& forall|i: int|
                0 <= i < result.beats@.len() ==> tells_beat(
                    #[trigger] posted_beats(all)[i],
                    result.beats@[i],
                )
            &&& posted_scenes(all).len() == result.scenes@.len()
            &&& forall|i: int|
                0 <= i < result.scenes@.len() ==> tells_scene(
                    #[trigger] posted_scenes(all)[i],
                    result.scenes@[i],
                )
            &&& job.plan.posted is None ==> {
                &&& posted_segments(all).len() == result.segments@.len()
                &&& forall|i: int|
                    0 <= i < result.segments@.len() ==> tells_segment(
                        #[trigger] posted_segments(all)[i],
                        result.segments@[i],
                    )
            }
            &&& job.plan.posted matches Some(k) ==> k <= result.segments@.len() <= i32::MAX && (
            forall|i: int|
                0 <= i < result.segments@.len() ==> (
                #[trigger] result.segments@[i]).segment_index == i) ==> {
                &&& posted_segments(all).len() == result.segments@.len() - k
                &&& forall|i: int|
                    0 <= i < posted_segments(all).len() ==> tells_segment(
                        #[trigger] posted_segments(all)[i],
                        result.segments@[k + i],
                    )
            }
        }),
{
    let o = OutputsModel::of(result, job.plan.posted);
    let mark = RequestModel::<T>::Patch(job.session, SessionStatus::Transcribed);
    outputs_are_posted_then_marked(job, o);
    posted_rows_of_plan(job.session, o.plan(), mark);
    beats_and_scenes_are_all_posted(result, job.plan.posted);
    match job.plan.posted {
        None => {
            segments_are_all_posted(result);
        },
        Some(k) => {
            if k <= result.segments@.len() <= i32::MAX && (forall|i: int|
                0 <= i < result.segments@.len() ==> (
                #[trigger] result.segments@[i]).segment_index == i) {
                later_segments_are_all_posted(result, k);
            }
        },
    }
}

} // verus!
