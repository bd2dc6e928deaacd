//! Posting of a session's transcript, beats and scenes.
//!
//! Segments go out in small batches, so that readers see the transcript grow;
//! then the beats and the scenes go out, each in one request. Nothing is
//! requested for an empty list.

use vstd::prelude::*;

use crate::pipeline::{
    beat_wire, finalize_posts_the_rest, is_unposted, scene_wire, segment_wire, tells_beat,
    tells_scene, tells_segment, to_beat_wires, to_scene_wires, to_segment_wires,
    unposted_segments, BeatWire, PipelineBeat, PipelineResult, PipelineScene,
    SceneWire, SegmentWire, TranscriptSegment,
};
use crate::time::Duration;

verus! {

/// The number of segments in a full batch.
pub const SEGMENT_BATCH: usize = 5;

/// The pause behind each batch of segments.
pub fn segment_pause() -> (d: Duration)
    ensures
        d.nanos == Duration::of_millis(50),
{
    Duration::from_millis(50)
}

/// One request's rows.
#[verifier::ext_equal]
pub enum PostModel<T> {
    Segments(Seq<SegmentWire<T>>),
    Beats(Seq<BeatWire<T>>),
    Scenes(Seq<SceneWire<T>>),
}

/// What is left to post.
#[verifier::ext_equal]
pub struct OutputsModel<T> {
    pub segments: Seq<SegmentWire<T>>,
    pub beats: Seq<BeatWire<T>>,
    pub scenes: Seq<SceneWire<T>>,
}

/// The size of the first batch of `n` segments.
pub open spec fn batch_len(n: nat) -> int {
    if n < SEGMENT_BATCH {
        n as int
    } else {
        SEGMENT_BATCH as int
    }
}

impl<T> OutputsModel<T> {
    /// What a pipeline result leaves to post; with `posted`, the segments that
    /// streaming has posted already are left out.
    pub open spec fn of(result: PipelineResult<T>, posted: Option<u32>) -> OutputsModel<T> {
        let wires = result.segments@.map_values(|s: TranscriptSegment<T>| segment_wire(s));
        OutputsModel {
            segments: match posted {
                Some(n) => wires.filter(|w: SegmentWire<T>| is_unposted(w, n)),
                None => wires,
            },
            beats: result.beats@.map_values(|b: PipelineBeat<T>| beat_wire(b)),
            scenes: result.scenes@.map_values(|s: PipelineScene<T>| scene_wire(s)),
        }
    }

    pub open spec fn is_drained(self) -> bool {
        self.segments.len() == 0 && self.beats.len() == 0 && self.scenes.len() == 0
    }

    /// The next request.
    pub open spec fn post(self) -> PostModel<T> {
        if self.segments.len() > 0 {
            PostModel::Segments(self.segments.take(batch_len(self.segments.len())))
        } else if self.beats.len() > 0 {
            PostModel::Beats(self.beats)
        } else {
            PostModel::Scenes(self.scenes)
        }
    }

    /// What is left behind the next request.
    pub open spec fn rest(self) -> OutputsModel<T> {
        if self.segments.len() > 0 {
            OutputsModel {
                segments: self.segments.skip(batch_len(self.segments.len())),
                ..self
            }
        } else if self.beats.len() > 0 {
            OutputsModel { beats: Seq::empty(), ..self }
        } else {
            OutputsModel { scenes: Seq::empty(), ..self }
        }
    }

    pub open spec fn size(self) -> nat {
        self.segments.len() + self.beats.len() + self.scenes.len()
    }

    /// All requests, in order.
    pub open spec fn plan(self) -> Seq<PostModel<T>>
        decreases self.size(),
    {
        if self.is_drained() {
            Seq::empty()
        } else {
            seq![self.post()] + self.rest().plan()
        }
    }
}

/// The segments in a list of requests, end to end.
pub open spec fn segment_rows<T>(posts: Seq<PostModel<T>>) -> Seq<SegmentWire<T>>
    decreases posts.len(),
{
    if posts.len() == 0 {
        Seq::empty()
    } else {
        (match posts[0] {
            PostModel::Segments(rows) => rows,
            _ => Seq::empty(),
        }) + segment_rows(posts.drop_first())
    }
}

/// The beats in a list of requests, end to end.
pub open spec fn beat_rows<T>(posts: Seq<PostModel<T>>) -> Seq<BeatWire<T>>
    decreases posts.len(),
{
    if posts.len() == 0 {
        Seq::empty()
    } else {
        (match posts[0] {
            PostModel::Beats(rows) => rows,
            _ => Seq::empty(),
        }) + beat_rows(posts.drop_first())
    }
}

/// The scenes in a list of requests, end to end.
pub open spec fn scene_rows<T>(posts: Seq<PostModel<T>>) -> Seq<SceneWire<T>>
    decreases posts.len(),
{
    if posts.len() == 0 {
        Seq::empty()
    } else {
        (match posts[0] {
            PostModel::Scenes(rows) => rows,
            _ => Seq::empty(),
        }) + scene_rows(posts.drop_first())
    }
}

/// Every segment, beat and scene is posted exactly once, in order.
pub proof fn plan_posts_everything_once<T>(outputs: OutputsModel<T>)
    ensures
        segment_rows(outputs.plan()) == outputs.segments,
        beat_rows(outputs.plan()) == outputs.beats,
        scene_rows(outputs.plan()) == outputs.scenes,
    decreases outputs.size(),
{
    let plan = outputs.plan();
    if outputs.is_drained() {
        assert(segment_rows(plan) =~= outputs.segments);
        assert(beat_rows(plan) =~= outputs.beats);
        assert(scene_rows(plan) =~= outputs.scenes);
    } else {
        plan_posts_everything_once(outputs.rest());
        assert(plan.drop_first() =~= outputs.rest().plan());
        assert(segment_rows(plan) =~= outputs.segments);
        assert(beat_rows(plan) =~= outputs.beats);
        assert(scene_rows(plan) =~= outputs.scenes);
    }
}

/// No request is empty, no batch of segments exceeds the batch size, and the
/// segments come first, then the beats, then the scenes.
pub proof fn plan_is_batched_and_ordered<T>(outputs: OutputsModel<T>)
    ensures
        forall|i: int|
            0 <= i < outputs.plan().len() ==> match #[trigger] outputs.plan()[i] {
                PostModel::Segments(rows) => 0 < rows.len() <= SEGMENT_BATCH,
                PostModel::Beats(rows) => rows.len() > 0,
                PostModel::Scenes(rows) => rows.len() > 0,
            },
        forall|i: int, j: int|
            0 <= i < j < outputs.plan().len() ==> post_rank(#[trigger] outputs.plan()[i])
                <= post_rank(#[trigger] outputs.plan()[j]),
    decreases outputs.size(),
{
    if !outputs.is_drained() {
        plan_is_batched_and_ordered(outputs.rest());
        let plan = outputs.plan();
        let rest = outputs.rest().plan();
        assert forall|i: int| 0 <= i < plan.len() implies match #[trigger] plan[i] {
            PostModel::Segments(rows) => 0 < rows.len() <= SEGMENT_BATCH,
            PostModel::Beats(rows) => rows.len() > 0,
            PostModel::Scenes(rows) => rows.len() > 0,
        } by {
            if i > 0 {
                assert(plan[i] == rest[i - 1]);
            }
        }
        assert forall|i: int, j: int| 0 <= i < j < plan.len() implies post_rank(
            #[trigger] plan[i],
        ) <= post_rank(#[trigger] plan[j]) by {
            assert(plan[j] == rest[j - 1]);
            if i > 0 {
                assert(plan[i] == rest[i - 1]);
            } else {
                ranks_of_plan(outputs.rest(), j - 1);
            }
        }
    }
}

/// Only the last batch of segments may be short of five.
pub proof fn only_the_last_batch_is_short<T>(outputs: OutputsModel<T>, i: int, j: int)
    requires
        0 <= i < j < outputs.plan().len(),
        outputs.plan()[j] is Segments,
    ensures
        outputs.plan()[i] matches PostModel::Segments(rows) && rows.len() == 5,
    decreases outputs.size(),
{
    let rest = outputs.rest();
    assert(outputs.plan()[j] == rest.plan()[j - 1]);
    if i > 0 {
        assert(outputs.plan()[i] == rest.plan()[i - 1]);
        only_the_last_batch_is_short(rest, i - 1, j - 1);
    } else if rest.segments.len() == 0 {
        ranks_of_plan(rest, j - 1);
    }
}

/// Whatever a pipeline run gave, and however many segments streaming posted
/// before, one row for each beat goes out and one for each scene, in order, and
/// each says what the pipeline said.
pub proof fn beats_and_scenes_are_all_posted<T>(result: PipelineResult<T>, posted: Option<u32>)
    ensures
        ({
            let plan = OutputsModel::of(result, posted).plan();
            &&& beat_rows(plan).len() == result.beats@.len()
            &&& forall|i: int|
                0 <= i < result.beats@.len() ==> tells_beat(
                    #[trigger] beat_rows(plan)[i],
                    result.beats@[i],
                )
            &&& scene_rows(plan).len() == result.scenes@.len()
            &&& forall|i: int|
                0 <= i < result.scenes@.len() ==> tells_scene(
                    #[trigger] scene_rows(plan)[i],
                    result.scenes@[i],
                )
        }),
{
    plan_posts_everything_once(OutputsModel::of(result, posted));
}

/// Where nothing was posted before, one row for each segment goes out, in order,
/// and each says what the pipeline said.
pub proof fn segments_are_all_posted<T>(result: PipelineResult<T>)
    ensures
        ({
            let plan = OutputsModel::of(result, None).plan();
            &&& segment_rows(plan).len() == result.segments@.len()
            &&& forall|i: int|
                0 <= i < result.segments@.len() ==> tells_segment(
                    #[trigger] segment_rows(plan)[i],
                    result.segments@[i],
                )
        }),
{
    plan_posts_everything_once(OutputsModel::of(result, None));
}

/// Where streaming has posted the first `posted` segments, one row goes out for
/// each segment behind them, in order, and each says what the pipeline said.
pub proof fn later_segments_are_all_posted<T>(result: PipelineResult<T>, posted: u32)
    requires
        posted <= result.segments@.len() <= i32::MAX,
        forall|i: int|
            0 <= i < result.segments@.len() ==> (
            #[trigger] result.segments@[i]).segment_index == i,
    ensures
        ({
            let plan = OutputsModel::of(result, Some(posted)).plan();
            &&& segment_rows(plan).len() == result.segments@.len() - posted
            &&& forall|i: int|
                0 <= i < segment_rows(plan).len() ==> tells_segment(
                    #[trigger] segment_rows(plan)[i],
                    result.segments@[posted + i],
                )
        }),
{
    plan_posts_everything_once(OutputsModel::of(result, Some(posted)));
    finalize_posts_the_rest(result.segments@, posted);
}

/// However the segments are numbered, a row goes out for each segment whose
/// number on the wire is not below the count, and for no other.
pub proof fn unposted_segments_go_out<T>(result: PipelineResult<T>, posted: u32, i: int)
    ensures
        ({
            let rows = segment_rows(OutputsModel::of(result, Some(posted)).plan());
            &&& 0 <= i < rows.len() ==> exists|k: int|
                0 <= k < result.segments@.len() && tells_segment(
                    rows[i],
                    #[trigger] result.segments@[k],
                ) && result.segments@[k].segment_index as i32 >= posted as i32
            &&& 0 <= i < result.segments@.len() && result.segments@[i].segment_index as i32
                >= posted as i32 ==> exists|k: int|
                0 <= k < rows.len() && tells_segment(#[trigger] rows[k], result.segments@[i])
        }),
{
    broadcast use vstd::seq_lib::group_filter_ensures;

    let o = OutputsModel::of(result, Some(posted));
    plan_posts_everything_once(o);
    let wires = result.segments@.map_values(|s: TranscriptSegment<T>| segment_wire(s));
    let pred = |w: SegmentWire<T>| is_unposted(w, posted);
    let rows = segment_rows(o.plan());
    if 0 <= i < rows.len() {
        assert(pred(rows[i]));
        assert(rows.contains(rows[i]));
        wires.lemma_filter_contains_rev(pred, rows[i]);
        let k = choose|k: int| 0 <= k < wires.len() && wires[k] == rows[i];
        assert(tells_segment(rows[i], result.segments@[k]));
    }
    if 0 <= i < result.segments@.len() && result.segments@[i].segment_index as i32
        >= posted as i32 {
        assert(pred(wires[i]));
        assert(rows.contains(wires[i]));
        let k = choose|k: int| 0 <= k < rows.len() && rows[k] == wires[i];
        assert(tells_segment(rows[k], result.segments@[i]));
    }
}

/// The place of a kind of request in the order of posting.
pub open spec fn post_rank<T>(post: PostModel<T>) -> int {
    match post {
        PostModel::Segments(_) => 0,
        PostModel::Beats(_) => 1,
        PostModel::Scenes(_) => 2,
    }
}

proof fn ranks_of_plan<T>(outputs: OutputsModel<T>, i: int)
    requires
        0 <= i < outputs.plan().len(),
    ensures
        outputs.segments.len() == 0 ==> post_rank(outputs.plan()[i]) >= 1,
        outputs.segments.len() == 0 && outputs.beats.len() == 0 ==> post_rank(outputs.plan()[i])
            == 2,
    decreases outputs.size(),
{
    if i > 0 {
        assert(outputs.plan()[i] == outputs.rest().plan()[i - 1]);
        ranks_of_plan(outputs.rest(), i - 1);
    }
}

/// One request's rows.
pub enum Post<T> {
    Segments(Vec<SegmentWire<T>>),
    Beats(Vec<BeatWire<T>>),
    Scenes(Vec<SceneWire<T>>),
}

impl<T> View for Post<T> {
    type V = PostModel<T>;

    open spec fn view(&self) -> PostModel<T> {
        match self {
            Post::Segments(rows) => PostModel::Segments(rows@),
            Post::Beats(rows) => PostModel::Beats(rows@),
            Post::Scenes(rows) => PostModel::Scenes(rows@),
        }
    }
}

/// What is left to post of a session.
pub struct Outputs<T> {
    segments: Vec<SegmentWire<T>>,
    beats: Vec<BeatWire<T>>,
    scenes: Vec<SceneWire<T>>,
}

impl<T> View for Outputs<T> {
    type V = OutputsModel<T>;

    closed spec fn view(&self) -> OutputsModel<T> {
        OutputsModel {
            segments: self.segments@,
            beats: self.beats@,
            scenes: self.scenes@,
        }
    }
}

impl<T> Outputs<T> {
    /// What a pipeline result leaves to post.
    pub fn of(result: PipelineResult<T>, posted: Option<u32>) -> (o: Outputs<T>)
        ensures
            o@ == OutputsModel::of(result, posted),
            o@.beats.len() == result.beats@.len(),
            forall|i: int|
                0 <= i < result.beats@.len() ==> tells_beat(
                    #[trigger] o@.beats[i],
                    result.beats@[i],
                ),
            o@.scenes.len() == result.scenes@.len(),
            forall|i: int|
                0 <= i < result.scenes@.len() ==> tells_scene(
                    #[trigger] o@.scenes[i],
                    result.scenes@[i],
                ),
            posted is None ==> o@.segments.len() == result.segments@.len() && forall|i: int|
                0 <= i < result.segments@.len() ==> tells_segment(
                    #[trigger] o@.segments[i],
                    result.segments@[i],
                ),
    {
        let wires = to_segment_wires(result.segments);
        Outputs {
            segments: match posted {
                Some(n) => unposted_segments(wires, n),
                None => wires,
            },
            beats: to_beat_wires(result.beats),
            scenes: to_scene_wires(result.scenes),
        }
    }

    /// Segments alone, as streaming posts them.
    pub fn of_segments(segments: Vec<TranscriptSegment<T>>) -> (o: Outputs<T>)
        ensures
            o@.segments == segments@.map_values(|s: TranscriptSegment<T>| segment_wire(s)),
            o@.segments.len() == segments@.len(),
            forall|i: int|
                0 <= i < segments@.len() ==> tells_segment(
                    #[trigger] o@.segments[i],
                    segments@[i],
                ),
            o@.beats.len() == 0,
            o@.scenes.len() == 0,
    {
        Outputs {
            segments: to_segment_wires(segments),
            beats: Vec::new(),
            scenes: Vec::new(),
        }
    }

    /// The number of segments left to post.
    pub fn segment_count(&self) -> (n: usize)
        ensures
            n == self@.segments.len(),
    {
        self.segments.len()
    }

    /// Take out the next request; `None` when nothing is left.
    pub fn next_post(&mut self) -> (p: Option<Post<T>>)
        ensures
            match p {
                Some(post) => {
                    &&& !old(self)@.is_drained()
                    &&& post@ == old(self)@.post()
                    &&& final(self)@ == old(self)@.rest()
                },
                None => old(self)@.is_drained() && final(self)@ == old(self)@,
            },
            p is None <==> old(self)@.segments.len() == 0 && old(self)@.beats.len() == 0
                && old(self)@.scenes.len() == 0,
            p matches Some(Post::Segments(rows)) ==> {
                &&& rows@.len() == (if old(self)@.segments.len() < 5 {
                    old(self)@.segments.len()
                } else {
                    5
                })
                &&& rows@ + final(self)@.segments == old(self)@.segments
                &&& final(self)@.beats == old(self)@.beats
                &&& final(self)@.scenes == old(self)@.scenes
            },
            p matches Some(Post::Beats(rows)) ==> {
                &&& old(self)@.segments.len() == 0
                &&& rows@ == old(self)@.beats
                &&& final(self)@.beats.len() == 0
                &&& final(self)@.segments == old(self)@.segments
                &&& final(self)@.scenes == old(self)@.scenes
            },
            p matches Some(Post::Scenes(rows)) ==> {
                &&& old(self)@.segments.len() == 0
                &&& old(self)@.beats.len() == 0
                &&& rows@ == old(self)@.scenes
                &&& final(self)@.scenes.len() == 0
                &&& final(self)@.segments == old(self)@.segments
                &&& final(self)@.beats == old(self)@.beats
            },
    {
        let ghost before = self@;
        if self.segments.len() > 0 {
            let n: usize = if self.segments.len() < SEGMENT_BATCH {
                self.segments.len()
            } else {
                SEGMENT_BATCH
            };
            let mut batch: Vec<SegmentWire<T>> = self.segments.split_off(n);
            std::mem::swap(&mut batch, &mut self.segments);
            assert(batch@ =~= before.segments.take(n as int));
            assert(self.segments@ =~= before.segments.skip(n as int));
            assert(batch@ + self.segments@ =~= before.segments);
            assert(self@ =~= before.rest());
            Some(Post::Segments(batch))
        } else if self.beats.len() > 0 {
            let mut rows: Vec<BeatWire<T>> = Vec::new();
            std::mem::swap(&mut rows, &mut self.beats);
            assert(self@ =~= before.rest());
            Some(Post::Beats(rows))
        } else if self.scenes.len() > 0 {
            let mut rows: Vec<SceneWire<T>> = Vec::new();
            std::mem::swap(&mut rows, &mut self.scenes);
            assert(self@ =~= before.rest());
            Some(Post::Scenes(rows))
        } else {
            None
        }
    }
}

} // verus!
