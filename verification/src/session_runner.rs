//! Per-session processing.
//!
//! A runner works in one of two modes. In streaming mode it takes in chunks as
//! they are announced, feeds the pipeline and posts what comes out, until it is
//! told to finalize. In one-shot mode it gathers all stored audio and runs the
//! pipeline once.
//!
//! ```text
//!     [Streaming] --finalize--> [Finalizing] --done--> [Done]
//!     [OneShot] ------------------------------done--> [Done]
//! ```

use vstd::prelude::*;

use crate::api_client::ResourceKind;
use crate::config::Config;
use crate::error::WorkerError;
use crate::ids::{ChunkSeq, PseudoId, SessionId};
use crate::job::{
    AudioSource, ClaimPolicy, JobModel, Plan, Request, RequestModel, SessionJob, SessionStatus,
    StageModel,
};
use crate::decode::mono;
use crate::lanes::{
    arrived, audible, chunks_are_delivered_once_in_order, faithful, fed, in_order, is_audible,
    no_sample_is_left_out, samples_of, FeedChunk, LaneModel, Lanes,
};
use crate::pipeline::CAPTURE_SAMPLE_RATE;
use crate::posting::PostingEnd;
use crate::whisper::{whisper_config, TranscriberConfig};

verus! {

/// Messages from the event loop to a runner.
pub enum RunnerCmd {
    /// A chunk is ready to be ingested.
    IngestChunk { pseudo: PseudoId, seq: ChunkSeq },
    /// Flush the pipeline, write the outputs and stop.
    Finalize,
    /// Stop without writing anything.
    Abort,
}

/// How a runner works.
#[derive(Clone, Copy, Debug, PartialEq, Eq, Structural)]
pub enum RunnerMode {
    /// Chunks arrive one by one.
    Streaming,
    /// All chunks are stored already.
    OneShot,
}

/// Settings of a batch run of the pipeline.
pub struct PipelineConfig {
    pub vad_model_path: String,
    pub whisper: TranscriberConfig,
}

/// Settings of a streaming pipeline.
pub struct StreamingConfig {
    pub vad_model_path: String,
    pub whisper: TranscriberConfig,
    pub input_sample_rate: u32,
    pub session_id: SessionId,
}

/// The settings of a batch run.
pub fn pipeline_config(cfg: &Config) -> (p: PipelineConfig)
    ensures
        p.vad_model_path == cfg.vad_model_path,
        p.whisper.follows(*cfg),
        p.whisper.endpoint == cfg.whisper_url,
        p.whisper.model == cfg.whisper_model,
{
    PipelineConfig { vad_model_path: cfg.vad_model_path.clone(), whisper: whisper_config(cfg) }
}

/// The settings of a session's streaming pipeline.
pub fn streaming_config(cfg: &Config, session: SessionId) -> (s: StreamingConfig)
    ensures
        s.vad_model_path == cfg.vad_model_path,
        s.whisper.follows(*cfg),
        s.whisper.endpoint == cfg.whisper_url,
        s.whisper.model == cfg.whisper_model,
        s.input_sample_rate == 48_000,
        s.input_sample_rate == CAPTURE_SAMPLE_RATE,
        s.session_id == session,
{
    StreamingConfig {
        vad_model_path: cfg.vad_model_path.clone(),
        whisper: whisper_config(cfg),
        input_sample_rate: CAPTURE_SAMPLE_RATE,
        session_id: session,
    }
}

/// What a streaming runner does about a command.
pub enum StreamingStep {
    /// Wait for the next command.
    Wait,
    /// Download this chunk and hand it to `ingest_one`.
    Download { pseudo: PseudoId, seq: ChunkSeq },
    /// Take no more commands, and run `finalize_streaming`.
    Finalize,
    /// Stop. Nothing is written.
    Stop,
}

/// A streaming runner: each speaker's lane, and the number of segments that
/// have been posted.
pub struct StreamingRunner {
    session: SessionId,
    lanes: Lanes,
    posted: u32,
}

impl StreamingRunner {
    pub closed spec fn wf(self) -> bool {
        self.lanes.wf()
    }

    /// The session that is run.
    pub closed spec fn session(self) -> SessionId {
        self.session
    }

    /// The speaker's lane.
    pub closed spec fn lane(self, pseudo: Seq<char>) -> LaneModel {
        self.lanes.lane(pseudo)
    }

    /// The number of segments posted so far.
    pub closed spec fn posted(self) -> u32 {
        self.posted
    }

    /// A runner that has seen nothing yet.
    pub fn new(session: SessionId) -> (r: StreamingRunner)
        ensures
            r.wf(),
            r.session() == session,
            r.posted() == 0,
            forall|p: Seq<char>| #[trigger] r.lane(p) == LaneModel::empty(),
    {
        let r = StreamingRunner { session, lanes: Lanes::new(), posted: 0 };
        assert forall|p: Seq<char>| #[trigger] r.lane(p) == LaneModel::empty() by {
            assert(r.lanes.lane(p) == LaneModel::empty());
        }
        r
    }

    /// What to do about the next command; `None` stands for a closed channel.
    ///
    /// A chunk that has been handed on already is not downloaded again.
    pub fn run_streaming(&self, cmd: Option<RunnerCmd>) -> (step: StreamingStep)
        requires
            self.wf(),
        ensures
            match cmd {
                Some(RunnerCmd::IngestChunk { pseudo, seq }) => if seq.0 < self.lane(pseudo@).next {
                    step is Wait
                } else {
                    step == (StreamingStep::Download { pseudo, seq })
                },
                Some(RunnerCmd::Finalize) => step is Finalize,
                Some(RunnerCmd::Abort) => step is Stop,
                None => step is Stop,
            },
    {
        match cmd {
            Some(RunnerCmd::IngestChunk { pseudo, seq }) => {
                if self.lanes.has_seen(&pseudo, seq) {
                    StreamingStep::Wait
                } else {
                    StreamingStep::Download { pseudo, seq }
                }
            },
            Some(RunnerCmd::Finalize) => StreamingStep::Finalize,
            Some(RunnerCmd::Abort) => StreamingStep::Stop,
            None => StreamingStep::Stop,
        }
    }

    /// Take in a download and return the chunks that the pipeline is fed with,
    /// in order. A failed download leaves the runner as it is, so that the chunk
    /// can still arrive.
    pub fn ingest_one(
        &mut self,
        pseudo: &PseudoId,
        seq: ChunkSeq,
        bytes: Result<Vec<u8>, WorkerError>,
    ) -> (ready: Result<Vec<FeedChunk>, WorkerError>)
        requires
            old(self).wf(),
        ensures
            final(self).wf(),
            final(self).session() == old(self).session(),
            final(self).posted() == old(self).posted(),
            forall|q: Seq<char>|
                q != pseudo@ ==> #[trigger] final(self).lane(q) == old(self).lane(q),
            match bytes {
                Ok(raw) => {
                    let step = old(self).lane(pseudo@).arrive(seq.0, raw@);
                    &&& final(self).lane(pseudo@) == step.0
                    &&& ready matches Ok(chunks) && fed(chunks@) == step.1.filter(
                        |c: (u32, Seq<i16>)| is_audible(c),
                    ) && samples_of(fed(chunks@)) == samples_of(step.1)
                },
                Err(e) => {
                    &&& final(self).lane(pseudo@) == old(self).lane(pseudo@)
                    &&& ready == Err::<Vec<FeedChunk>, WorkerError>(e)
                },
            },
    {
        match bytes {
            Ok(raw) => {
                let ghost before = *self;
                let ready = self.lanes.accept(pseudo, seq, raw);
                proof {
                    assert forall|q: Seq<char>| q != pseudo@ implies #[trigger] self.lane(q)
                        == before.lane(q) by {
                        assert(self.lanes.lane(q) == before.lanes.lane(q));
                    }
                }
                Ok(audible(ready))
            },
            Err(e) => Err(e),
        }
    }

    /// Posting segments ended. They count as posted where all of them went out.
    pub fn on_posted(&mut self, end: PostingEnd) -> (r: Result<(), WorkerError>)
        requires
            old(self).wf(),
            end.outcome() is Ok ==> old(self).posted() + end.count() <= u32::MAX,
        ensures
            final(self).wf(),
            r == end.outcome(),
            final(self).session() == old(self).session(),
            final(self).posted() == (if end.outcome() is Ok {
                old(self).posted() + end.count()
            } else {
                old(self).posted() as int
            }),
            forall|q: Seq<char>| #[trigger] final(self).lane(q) == old(self).lane(q),
    {
        let count: usize = end.segment_count();
        match end.into_outcome() {
            Ok(done) => {
                self.posted = self.posted + count as u32;
                Ok(done)
            },
            Err(e) => Err(e),
        }
    }

    /// The number of segments posted so far.
    pub fn posted_count(&self) -> (n: u32)
        ensures
            n == self.posted(),
    {
        self.posted
    }

    /// Begin to finalize: claim the session, flush the stream, and post what
    /// has not been posted.
    pub fn finalize_streaming<T>(self) -> (r: (SessionJob<T>, Request<T>))
        ensures
            r.0.wf(),
            r.0@ == (JobModel {
                plan: Plan {
                    claim: ClaimPolicy::Required,
                    source: AudioSource::Stream,
                    posted: Some(self.posted()),
                },
                session: self.session(),
                stage: StageModel::<T>::Claiming,
            }),
            r.1@ == RequestModel::<T>::Patch(self.session(), SessionStatus::Transcribing),
    {
        SessionJob::start(
            self.session,
            Plan {
                claim: ClaimPolicy::Required,
                source: AudioSource::Stream,
                posted: Some(self.posted),
            },
        )
    }
}

/// What a streaming runner feeds to the pipeline of one speaker, over a list of
/// downloads.
pub open spec fn fed_over(lane: LaneModel, arrivals: Seq<(u32, Seq<u8>)>) -> Seq<(u32, Seq<i16>)>
    decreases arrivals.len(),
{
    if arrivals.len() == 0 {
        Seq::empty()
    } else {
        let before = lane.deliver(arrivals.drop_last()).0;
        fed_over(lane, arrivals.drop_last()) + before.arrive(
            arrivals.last().0,
            arrivals.last().1,
        ).1.filter(|c: (u32, Seq<i16>)| is_audible(c))
    }
}

proof fn fed_is_audible_log(lane: LaneModel, arrivals: Seq<(u32, Seq<u8>)>)
    ensures
        fed_over(lane, arrivals) == lane.deliver(arrivals).1.filter(
            |c: (u32, Seq<i16>)| is_audible(c),
        ),
    decreases arrivals.len(),
{
    let pred = |c: (u32, Seq<i16>)| is_audible(c);
    if arrivals.len() == 0 {
        reveal(Seq::filter);
    } else {
        let earlier = arrivals.drop_last();
        fed_is_audible_log(lane, earlier);
        let before = lane.deliver(earlier);
        let step = before.0.arrive(arrivals.last().0, arrivals.last().1);
        Seq::filter_distributes_over_add(before.1, step.1, pred);
    }
}

/// However often and in whatever order a speaker's chunks arrive, the pipeline
/// is fed each of them once, in order, up to the first one that is missing;
/// chunks without samples are left out.
pub proof fn pipeline_is_fed_in_order(
    arrivals: Seq<(u32, Seq<u8>)>,
    content: spec_fn(u32) -> Seq<u8>,
)
    requires
        faithful(arrivals, content),
    ensures
        fed_over(LaneModel::empty(), arrivals) == in_order(
            content,
            LaneModel::empty().deliver(arrivals).0.next,
        ).filter(|c: (u32, Seq<i16>)| is_audible(c)),
{
    fed_is_audible_log(LaneModel::empty(), arrivals);
    chunks_are_delivered_once_in_order(arrivals, content);
}

/// The audio of the first `n` chunks of a speaker, end to end.
pub open spec fn audio_up_to(content: spec_fn(u32) -> Seq<u8>, n: nat) -> Seq<i16>
    decreases n,
{
    if n == 0 {
        Seq::empty()
    } else {
        audio_up_to(content, (n - 1) as nat) + mono(content((n - 1) as u32))
    }
}

proof fn audio_of_in_order(content: spec_fn(u32) -> Seq<u8>, n: nat)
    requires
        n <= u32::MAX + 1,
    ensures
        samples_of(in_order(content, n)) == audio_up_to(content, n),
    decreases n,
{
    let all = in_order(content, n);
    if n > 0 {
        let before = (n - 1) as nat;
        audio_of_in_order(content, before);
        assert(all.drop_last() =~= in_order(content, before));
        assert(all.last() == ((n - 1) as u32, mono(content((n - 1) as u32))));
    }
}

/// However often and in whatever order a speaker's chunks arrive, the pipeline
/// is fed every sample of the chunks before the first missing one, in order and
/// whatever its value, and each of those chunks that has a sample.
pub proof fn every_sample_is_fed(
    arrivals: Seq<(u32, Seq<u8>)>,
    content: spec_fn(u32) -> Seq<u8>,
    n: nat,
)
    requires
        faithful(arrivals, content),
        n <= u32::MAX + 1,
        forall|k: u32| k < n ==> #[trigger] arrived(arrivals, k),
        n <= u32::MAX ==> !arrived(arrivals, n as u32),
    ensures
        samples_of(fed_over(LaneModel::empty(), arrivals)) == audio_up_to(content, n),
        forall|k: u32|
            k < n && (#[trigger] mono(content(k))).len() > 0 ==> fed_over(
                LaneModel::empty(),
                arrivals,
            ).contains((k, mono(content(k)))),
{
    chunks_are_delivered_once_in_order(arrivals, content);
    let next = LaneModel::empty().deliver(arrivals).0.next;
    if next < n {
        assert(arrived(arrivals, next as u32));
    }
    if n < next {
        assert(arrived(arrivals, n as u32));
    }
    pipeline_is_fed_in_order(arrivals, content);
    let all = in_order(content, n);
    no_sample_is_left_out(all);
    audio_of_in_order(content, n);
    let fed_chunks = fed_over(LaneModel::empty(), arrivals);
    assert forall|k: u32| k < n && (#[trigger] mono(content(k))).len() > 0 implies
        fed_chunks.contains((k, mono(content(k)))) by {
        assert(all[k as int] == (k, mono(content(k))));
    }
}

/// Begin a one-shot run: claim the session, gather the stored audio, run the
/// pipeline and post everything.
///
/// Claiming an orphaned session again is accepted by the data-api, so the same
/// run serves sessions that another process left in the middle.
pub fn run_one_shot<T>(session: SessionId) -> (r: (SessionJob<T>, Request<T>))
    ensures
        r.0.wf(),
        r.0@ == (JobModel {
            plan: Plan {
                claim: ClaimPolicy::Required,
                source: AudioSource::Storage,
                posted: None,
            },
            session,
            stage: StageModel::<T>::Claiming,
        }),
        r.1@ == RequestModel::<T>::Patch(session, SessionStatus::Transcribing),
{
    SessionJob::start(
        session,
        Plan { claim: ClaimPolicy::Required, source: AudioSource::Storage, posted: None },
    )
}

/// One output to delete.
#[derive(Clone, Copy, Debug, PartialEq, Eq, Structural)]
pub struct Deletion {
    pub kind: ResourceKind,
    pub id: u128,
}

/// The ids in a listing; a listing that failed counts as empty.
pub open spec fn listed_ids(listing: Result<Vec<u128>, WorkerError>) -> Seq<u128> {
    match listing {
        Ok(ids) => ids@,
        Err(_) => Seq::empty(),
    }
}

/// Deletions of outputs of one kind.
pub open spec fn deletions(kind: ResourceKind, ids: Seq<u128>) -> Seq<Deletion> {
    ids.map_values(|id: u128| Deletion { kind, id })
}

fn push_deletions(
    list: &mut Vec<Deletion>,
    kind: ResourceKind,
    listing: Result<Vec<u128>, WorkerError>,
)
    ensures
        final(list)@ == old(list)@ + deletions(kind, listed_ids(listing)),
{
    let ghost before = list@;
    match listing {
        Ok(ids) => {
            let mut i: usize = 0;
            assert(list@ =~= before + deletions(kind, ids@.take(0)));
            while i < ids.len()
                invariant
                    i <= ids.len(),
                    list@ == before + deletions(kind, ids@.take(i as int)),
                decreases ids.len() - i,
            {
                list.push(Deletion { kind, id: ids[i] });
                assert(ids@.take(i + 1) =~= ids@.take(i as int).push(ids@[i as int]));
                assert(list@ =~= before + deletions(kind, ids@.take(i + 1)));
                i = i + 1;
            }
            assert(ids@.take(ids@.len() as int) =~= ids@);
        },
        Err(_) => {
            assert(list@ =~= before + deletions(kind, Seq::empty()));
        },
    }
}

/// What to delete before a session is run again: its segments, then its beats,
/// then its scenes. A deletion that fails does not keep the others from being
/// made.
pub fn clear_prior_outputs(
    segments: Result<Vec<u128>, WorkerError>,
    beats: Result<Vec<u128>, WorkerError>,
    scenes: Result<Vec<u128>, WorkerError>,
) -> (list: Vec<Deletion>)
    ensures
        list@ == deletions(ResourceKind::Segments, listed_ids(segments)) + deletions(
            ResourceKind::Beats,
            listed_ids(beats),
        ) + deletions(ResourceKind::Scenes, listed_ids(scenes)),
        ({
            let n = if segments is Ok {
                segments->Ok_0@.len()
            } else {
                0
            };
            let m = n + (if beats is Ok {
                beats->Ok_0@.len()
            } else {
                0
            });
            &&& list@.len() == m + (if scenes is Ok {
                scenes->Ok_0@.len()
            } else {
                0
            })
            &&& forall|i: int|
                0 <= i < n ==> (#[trigger] list@[i]).kind is Segments && list@[i].id
                    == segments->Ok_0@[i]
            &&& forall|i: int|
                n <= i < m ==> (#[trigger] list@[i]).kind is Beats && list@[i].id == beats->Ok_0@[i
                    - n]
            &&& forall|i: int|
                m <= i < list@.len() ==> (#[trigger] list@[i]).kind is Scenes && list@[i].id
                    == scenes->Ok_0@[i - m]
        }),
{
    let mut list: Vec<Deletion> = Vec::new();
    push_deletions(&mut list, ResourceKind::Segments, segments);
    push_deletions(&mut list, ResourceKind::Beats, beats);
    push_deletions(&mut list, ResourceKind::Scenes, scenes);
    assert(list@ =~= deletions(ResourceKind::Segments, listed_ids(segments)) + deletions(
        ResourceKind::Beats,
        listed_ids(beats),
    ) + deletions(ResourceKind::Scenes, listed_ids(scenes)));
    list
}

} // verus!
