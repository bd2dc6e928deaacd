//! Posting of the segments that come out of a stream.
//!
//! What feeding a few chunks gave is gathered and posted batch by batch. Each
//! batch waits for the reply to the one before it; a refused batch is the last
//! one. Only where all batches were accepted do the segments count as posted.

use vstd::prelude::*;

use crate::error::WorkerError;
use crate::outputs::{
    plan_is_batched_and_ordered, plan_posts_everything_once, segment_rows, Outputs, OutputsModel,
    Post, PostModel, SEGMENT_BATCH,
};
use crate::pipeline::{segment_wire, tells_segment, TranscriptSegment};

verus! {

/// The segments that feeding chunks gave, end to end. A chunk that the pipeline
/// refused gives none.
pub open spec fn segments_of<T>(
    fed: Seq<Result<Vec<TranscriptSegment<T>>, WorkerError>>,
) -> Seq<TranscriptSegment<T>>
    decreases fed.len(),
{
    if fed.len() == 0 {
        Seq::empty()
    } else {
        segments_of(fed.drop_last()) + match fed.last() {
            Ok(segments) => segments@,
            Err(_) => Seq::empty(),
        }
    }
}

/// What is gathered from two lots of fed chunks is what is gathered from the
/// first, then what is gathered from the second. A chunk that was fed gives all
/// its segments as they came, and one that the pipeline refused gives none.
pub proof fn segments_are_gathered_in_order<T>(
    a: Seq<Result<Vec<TranscriptSegment<T>>, WorkerError>>,
    b: Seq<Result<Vec<TranscriptSegment<T>>, WorkerError>>,
    segments: Vec<TranscriptSegment<T>>,
    e: WorkerError,
)
    ensures
        segments_of(a + b) == segments_of(a) + segments_of(b),
        segments_of(seq![Ok(segments)]) == segments@,
        segments_of(seq![Err::<Vec<TranscriptSegment<T>>, WorkerError>(e)]).len() == 0,
    decreases b.len(),
{
    reveal_with_fuel(segments_of, 2);
    let none = Seq::<TranscriptSegment<T>>::empty();
    let one = seq![Ok::<Vec<TranscriptSegment<T>>, WorkerError>(segments)];
    let bad = seq![Err::<Vec<TranscriptSegment<T>>, WorkerError>(e)];
    assert(one.drop_last() =~= Seq::empty());
    assert(bad.drop_last() =~= Seq::empty());
    assert(none + segments@ =~= segments@);
    assert(none + none =~= none);
    if b.len() == 0 {
        assert(a + b =~= a);
        assert(segments_of(a) + none =~= segments_of(a));
    } else {
        segments_are_gathered_in_order(a, b.drop_last(), segments, e);
        assert((a + b).drop_last() =~= a + b.drop_last());
        assert((a + b).last() == b.last());
        assert(segments_of(a + b) =~= segments_of(a) + segments_of(b));
    }
}

/// Gather what feeding chunks gave. A chunk that the pipeline refused is passed
/// over.
pub fn new_segments<T>(fed: Vec<Result<Vec<TranscriptSegment<T>>, WorkerError>>) -> (all: Vec<
    TranscriptSegment<T>,
>)
    ensures
        all@ == segments_of(fed@),
{
    let ghost results = fed@;
    let mut all: Vec<TranscriptSegment<T>> = Vec::new();
    for r in it: fed.into_iter()
        invariant
            it.seq() == results,
            all@ == segments_of(results.take(it.index() as int)),
    {
        let ghost n = it.index() as int;
        let ghost before = all@;
        proof {
            assert(it.seq()[n] == r);
            assert(results.take(n + 1).drop_last() =~= results.take(n));
            assert(results.take(n + 1).last() == r);
        }
        match r {
            Ok(segments) => {
                let mut segments = segments;
                all.append(&mut segments);
            },
            Err(_) => {
                assert(before + Seq::<TranscriptSegment<T>>::empty() =~= before);
            },
        }
    }
    assert(results.take(results.len() as int) =~= results);
    all
}

/// Segments that are being posted: what is left, and how many there are in all.
#[verifier::ext_equal]
pub struct PostingModel<T> {
    pub rest: OutputsModel<T>,
    pub total: nat,
}

impl<T> PostingModel<T> {
    /// Nothing of these segments has been posted yet.
    pub open spec fn of(segments: Seq<TranscriptSegment<T>>) -> PostingModel<T> {
        PostingModel {
            rest: OutputsModel {
                segments: segments.map_values(|s: TranscriptSegment<T>| segment_wire(s)),
                beats: Seq::empty(),
                scenes: Seq::empty(),
            },
            total: segments.len(),
        }
    }

    /// `step` goes on with the next batch, or ends well where none is left.
    pub open spec fn goes_on(self, step: PostingStep<T>) -> bool {
        if self.rest.is_drained() {
            step matches PostingStep::End(end) && end.outcome() is Ok && end.count() == self.total
        } else {
            step matches PostingStep::Send(next, post) && {
                &&& post@ == self.rest.post()
                &&& next@ == self.accepted()
            }
        }
    }

    /// What is left behind the next batch.
    pub open spec fn accepted(self) -> PostingModel<T> {
        PostingModel { rest: self.rest.rest(), ..self }
    }

    /// The batches that go out under a list of replies, and how the posting ends
    /// if it does.
    pub open spec fn run(self, replies: Seq<Result<(), WorkerError>>) -> (
        Seq<PostModel<T>>,
        Option<Result<(), WorkerError>>,
    )
        decreases replies.len(),
    {
        if self.rest.is_drained() {
            (Seq::empty(), Some(Ok(())))
        } else if replies.len() == 0 {
            (seq![self.rest.post()], None)
        } else {
            match replies[0] {
                Ok(_) => {
                    let more = self.accepted().run(replies.drop_first());
                    (seq![self.rest.post()] + more.0, more.1)
                },
                Err(e) => (seq![self.rest.post()], Some(Err(e))),
            }
        }
    }
}

/// Where every batch is accepted, all batches go out, in order, and the posting
/// ends well.
pub proof fn accepted_batches_all_go_out<T>(
    posting: PostingModel<T>,
    replies: Seq<Result<(), WorkerError>>,
)
    requires
        replies.len() >= posting.rest.plan().len(),
        forall|i: int| 0 <= i < replies.len() ==> #[trigger] replies[i] is Ok,
    ensures
        posting.run(replies).0 == posting.rest.plan(),
        posting.run(replies).1 matches Some(Ok(_)),
    decreases replies.len(),
{
    if !posting.rest.is_drained() {
        let rest = replies.drop_first();
        assert(replies[0] is Ok);
        assert forall|i: int| 0 <= i < rest.len() implies #[trigger] rest[i] is Ok by {
            assert(rest[i] == replies[i + 1]);
        }
        accepted_batches_all_go_out(posting.accepted(), rest);
        assert(posting.run(replies).0 =~= posting.rest.plan());
    }
}

/// A refused batch is the last one: nothing goes out behind it, and the posting
/// ends with its error.
pub proof fn refused_batch_is_the_last<T>(
    posting: PostingModel<T>,
    replies: Seq<Result<(), WorkerError>>,
    k: int,
    e: WorkerError,
)
    requires
        0 <= k < posting.rest.plan().len(),
        k < replies.len(),
        forall|i: int| 0 <= i < k ==> #[trigger] replies[i] is Ok,
        replies[k] == Err::<(), WorkerError>(e),
    ensures
        posting.run(replies).0 == posting.rest.plan().take(k + 1),
        posting.run(replies).1 == Some(Err::<(), WorkerError>(e)),
    decreases replies.len(),
{
    let plan = posting.rest.plan();
    let later = posting.accepted().rest.plan();
    assert(plan =~= seq![posting.rest.post()] + later);
    if k == 0 {
        assert(posting.run(replies).0 =~= plan.take(1));
    } else {
        let rest = replies.drop_first();
        assert(replies[0] is Ok);
        assert forall|i: int| 0 <= i < k - 1 implies #[trigger] rest[i] is Ok by {
            assert(rest[i] == replies[i + 1]);
        }
        refused_batch_is_the_last(posting.accepted(), rest, k - 1, e);
        assert(posting.run(replies).0 =~= plan.take(k + 1));
    }
}

/// The batches of a posting hold every segment once, in order, and only
/// segments, at most a full batch at a time.
pub proof fn batches_hold_each_segment_once<T>(segments: Seq<TranscriptSegment<T>>)
    ensures
        segment_rows(PostingModel::of(segments).rest.plan()) == segments.map_values(
            |s: TranscriptSegment<T>| segment_wire(s),
        ),
        forall|i: int|
            0 <= i < PostingModel::of(segments).rest.plan().len() ==> (
            #[trigger] PostingModel::of(segments).rest.plan()[i] matches PostModel::Segments(rows)
                && 0 < rows.len() <= SEGMENT_BATCH),
{
    let rest = PostingModel::of(segments).rest;
    plan_posts_everything_once(rest);
    plan_is_batched_and_ordered(rest);
    only_segments(rest);
}

proof fn only_segments<T>(outputs: OutputsModel<T>)
    requires
        outputs.beats.len() == 0,
        outputs.scenes.len() == 0,
    ensures
        forall|i: int|
            0 <= i < outputs.plan().len() ==> #[trigger] outputs.plan()[i] is Segments,
    decreases outputs.size(),
{
    if !outputs.is_drained() {
        only_segments(outputs.rest());
        let plan = outputs.plan();
        assert forall|i: int| 0 <= i < plan.len() implies #[trigger] plan[i] is Segments by {
            if i > 0 {
                assert(plan[i] == outputs.rest().plan()[i - 1]);
            }
        }
    }
}

/// How a posting ended.
pub struct PostingEnd {
    count: usize,
    outcome: Result<(), WorkerError>,
}

impl PostingEnd {
    /// The number of segments that were to be posted.
    pub closed spec fn count(self) -> nat {
        self.count as nat
    }

    /// Success, where all of them were accepted.
    pub closed spec fn outcome(self) -> Result<(), WorkerError> {
        self.outcome
    }

    pub fn segment_count(&self) -> (n: usize)
        ensures
            n == self.count(),
    {
        self.count
    }

    /// All segments were accepted.
    pub fn is_ok(&self) -> (b: bool)
        ensures
            b == self.outcome() is Ok,
    {
        match &self.outcome {
            Ok(_) => true,
            Err(_) => false,
        }
    }

    pub fn into_outcome(self) -> (r: Result<(), WorkerError>)
        ensures
            r == self.outcome(),
    {
        self.outcome
    }
}

/// What a posting does next.
pub enum PostingStep<T> {
    /// Send this batch, and hand the reply to the posting.
    Send(SegmentPosting<T>, Post<T>),
    End(PostingEnd),
}

/// Segments that are being posted.
pub struct SegmentPosting<T> {
    rest: Outputs<T>,
    total: usize,
}

impl<T> View for SegmentPosting<T> {
    type V = PostingModel<T>;

    closed spec fn view(&self) -> PostingModel<T> {
        PostingModel { rest: self.rest@, total: self.total as nat }
    }
}

impl<T> SegmentPosting<T> {
    fn go_on(self) -> (step: PostingStep<T>)
        ensures
            self@.goes_on(step),
            step matches PostingStep::End(end) ==> end.outcome() is Ok && end.count() == self@.total,
            step is End <==> self@.rest.segments.len() == 0 && self@.rest.beats.len() == 0
                && self@.rest.scenes.len() == 0,
            step matches PostingStep::Send(next, post) ==> next@.total == self@.total,
            step matches PostingStep::Send(next, Post::Segments(rows)) ==> {
                &&& rows@.len() == (if self@.rest.segments.len() < 5 {
                    self@.rest.segments.len()
                } else {
                    5
                })
                &&& rows@ + next@.rest.segments == self@.rest.segments
                &&& next@.rest.beats == self@.rest.beats
                &&& next@.rest.scenes == self@.rest.scenes
            },
            step matches PostingStep::Send(next, post) ==> (self@.rest.segments.len() > 0
                ==> post is Segments),
    {
        let total: usize = self.total;
        let mut rest = self.rest;
        match rest.next_post() {
            Some(post) => PostingStep::Send(SegmentPosting { rest, total }, post),
            None => PostingStep::End(PostingEnd { count: total, outcome: Ok(()) }),
        }
    }

    /// Begin to post what feeding chunks gave.
    pub fn start(fed: Vec<Result<Vec<TranscriptSegment<T>>, WorkerError>>) -> (step: PostingStep<T>)
        ensures
            PostingModel::of(segments_of(fed@)).goes_on(step),
            step is End <==> segments_of(fed@).len() == 0,
            step matches PostingStep::End(end) ==> end.outcome() is Ok && end.count() == 0,
            step matches PostingStep::Send(next, post) ==> {
                &&& post matches Post::Segments(rows) && {
                    &&& rows@.len() == (if segments_of(fed@).len() < 5 {
                        segments_of(fed@).len()
                    } else {
                        5
                    })
                    &&& rows@.len() + next@.rest.segments.len() == segments_of(fed@).len()
                    &&& forall|i: int|
                        0 <= i < rows@.len() ==> tells_segment(
                            #[trigger] rows@[i],
                            segments_of(fed@)[i],
                        )
                    &&& forall|i: int|
                        0 <= i < next@.rest.segments.len() ==> tells_segment(
                            #[trigger] next@.rest.segments[i],
                            segments_of(fed@)[rows@.len() + i],
                        )
                }
                &&& next@.rest.beats.len() == 0
                &&& next@.rest.scenes.len() == 0
                &&& next@.total == segments_of(fed@).len()
            },
    {
        let segments = new_segments(fed);
        let total: usize = segments.len();
        let posting = SegmentPosting { rest: Outputs::of_segments(segments), total };
        assert(posting@ =~= PostingModel::of(segments_of(fed@)));
        let ghost all = posting@.rest.segments;
        let step = posting.go_on();
        let ghost given = step;
        proof {
            if let PostingStep::Send(next, Post::Segments(rows)) = given {
                assert forall|i: int| 0 <= i < rows@.len() implies tells_segment(
                    #[trigger] rows@[i],
                    segments_of(fed@)[i],
                ) by {
                    assert(rows@[i] == all[i]);
                }
                assert forall|i: int| 0 <= i < next@.rest.segments.len() implies tells_segment(
                    #[trigger] next@.rest.segments[i],
                    segments_of(fed@)[rows@.len() + i],
                ) by {
                    assert(next@.rest.segments[i] == all[rows@.len() + i]);
                }
            }
        }
        step
    }

    /// Take in the reply to the last batch. An error ends the posting with that
    /// error.
    pub fn step(self, reply: Result<(), WorkerError>) -> (step: PostingStep<T>)
        ensures
            match reply {
                Ok(_) => self@.goes_on(step),
                Err(e) => step matches PostingStep::End(end) && end.count() == self@.total
                    && end.outcome() == Err::<(), WorkerError>(e),
            },
            step is End <==> reply is Err || (self@.rest.segments.len() == 0
                && self@.rest.beats.len() == 0 && self@.rest.scenes.len() == 0),
            step matches PostingStep::End(end) ==> end.count() == self@.total && (end.outcome() is Ok
                <==> reply is Ok),
            step matches PostingStep::Send(next, post) ==> next@.total == self@.total,
            step matches PostingStep::Send(next, Post::Segments(rows)) ==> {
                &&& rows@.len() == (if self@.rest.segments.len() < 5 {
                    self@.rest.segments.len()
                } else {
                    5
                })
                &&& rows@ + next@.rest.segments == self@.rest.segments
                &&& next@.rest.beats == self@.rest.beats
                &&& next@.rest.scenes == self@.rest.scenes
            },
            step matches PostingStep::Send(next, post) ==> (self@.rest.segments.len() > 0
                ==> post is Segments),
    {
        match reply {
            Ok(_) => self.go_on(),
            Err(e) => PostingStep::End(PostingEnd { count: self.total, outcome: Err(e) }),
        }
    }
}

} // verus!
