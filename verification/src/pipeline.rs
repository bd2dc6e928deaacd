//! What goes into the transcription pipeline and what comes out of it.
//!
//! The pipeline's time stamps and confidences are carried through unread: `T`
//! stands for them.

use vstd::prelude::*;

use crate::ids::PseudoId;

verus! {

/// Capture rate of all uploaded audio, in samples per second.
pub const CAPTURE_SAMPLE_RATE: u32 = 48_000;

/// One speaker's decoded audio.
pub struct SpeakerTrack {
    pub pseudo_id: PseudoId,
    pub samples: Vec<i16>,
    pub sample_rate: u32,
}

/// A track's content: who speaks, the samples, and their rate.
pub type TrackModel = (Seq<char>, Seq<i16>, u32);

impl View for SpeakerTrack {
    type V = TrackModel;

    open spec fn view(&self) -> TrackModel {
        (self.pseudo_id@, self.samples@, self.sample_rate)
    }
}

/// The content of a list of tracks.
pub open spec fn track_contents(tracks: Seq<SpeakerTrack>) -> Seq<TrackModel> {
    tracks.map_values(|t: SpeakerTrack| t@)
}

/// A transcribed segment as the pipeline yields it.
pub struct TranscriptSegment<T> {
    pub segment_index: u32,
    pub speaker_pseudo_id: String,
    pub text: String,
    pub original_text: String,
    pub beat_id: Option<u32>,
    pub chunk_group: Option<u32>,
    pub excluded: bool,
    pub exclude_reason: Option<String>,
    pub timing: T,
}

/// A narrative beat as the pipeline yields it.
pub struct PipelineBeat<T> {
    pub beat_index: u32,
    pub title: String,
    pub summary: String,
    pub timing: T,
}

/// A scene as the pipeline yields it.
pub struct PipelineScene<T> {
    pub scene_index: u32,
    pub title: String,
    pub summary: String,
    pub beat_start: u32,
    pub beat_end: u32,
    pub timing: T,
}

/// All that the pipeline yields for a session.
pub struct PipelineResult<T> {
    pub segments: Vec<TranscriptSegment<T>>,
    pub beats: Vec<PipelineBeat<T>>,
    pub scenes: Vec<PipelineScene<T>>,
}

/// A segment as it is posted.
pub struct SegmentWire<T> {
    pub segment_index: i32,
    pub speaker_pseudo_id: String,
    pub text: String,
    pub original_text: String,
    pub beat_id: Option<i32>,
    pub chunk_group: Option<i32>,
    pub excluded: bool,
    pub exclude_reason: Option<String>,
    pub timing: T,
}

/// A beat as it is posted.
pub struct BeatWire<T> {
    pub beat_index: i32,
    pub title: String,
    pub summary: String,
    pub timing: T,
}

/// A scene as it is posted.
pub struct SceneWire<T> {
    pub scene_index: i32,
    pub title: String,
    pub summary: String,
    pub beat_start: i32,
    pub beat_end: i32,
    pub timing: T,
}

/// An index on the wire: the low 32 bits, read as signed.
pub open spec fn index_wire(index: Option<u32>) -> Option<i32> {
    match index {
        Some(n) => Some(n as i32),
        None => None,
    }
}

pub open spec fn segment_wire<T>(s: TranscriptSegment<T>) -> SegmentWire<T> {
    SegmentWire {
        segment_index: s.segment_index as i32,
        speaker_pseudo_id: s.speaker_pseudo_id,
        text: s.text,
        original_text: s.original_text,
        beat_id: index_wire(s.beat_id),
        chunk_group: index_wire(s.chunk_group),
        excluded: s.excluded,
        exclude_reason: s.exclude_reason,
        timing: s.timing,
    }
}

pub open spec fn beat_wire<T>(b: PipelineBeat<T>) -> BeatWire<T> {
    BeatWire {
        beat_index: b.beat_index as i32,
        title: b.title,
        summary: b.summary,
        timing: b.timing,
    }
}

pub open spec fn scene_wire<T>(s: PipelineScene<T>) -> SceneWire<T> {
    SceneWire {
        scene_index: s.scene_index as i32,
        title: s.title,
        summary: s.summary,
        beat_start: s.beat_start as i32,
        beat_end: s.beat_end as i32,
        timing: s.timing,
    }
}

fn to_index(index: Option<u32>) -> (r: Option<i32>)
    ensures
        r == index_wire(index),
{
    match index {
        Some(n) => Some(n as i32),
        None => None,
    }
}

/// Segments in the form in which they are posted, in order.
pub fn to_segment_wires<T>(segments: Vec<TranscriptSegment<T>>) -> (wires: Vec<SegmentWire<T>>)
    ensures
        wires@ == segments@.map_values(|s: TranscriptSegment<T>| segment_wire(s)),
        wires@.len() == segments@.len(),
        forall|i: int|
            #![trigger wires@[i]]
            #![trigger segments@[i]]
            0 <= i < wires@.len() ==> {
                &&& wires@[i].segment_index == segments@[i].segment_index as i32
                &&& segments@[i].segment_index <= i32::MAX ==> wires@[i].segment_index
                    == segments@[i].segment_index
                &&& wires@[i].speaker_pseudo_id == segments@[i].speaker_pseudo_id
                &&& wires@[i].text == segments@[i].text
                &&& wires@[i].original_text == segments@[i].original_text
                &&& wires@[i].beat_id is Some == segments@[i].beat_id is Some
                &&& segments@[i].beat_id matches Some(b) ==> wires@[i].beat_id->0 == b as i32
                &&& wires@[i].chunk_group is Some == segments@[i].chunk_group is Some
                &&& segments@[i].chunk_group matches Some(g) ==> wires@[i].chunk_group->0
                    == g as i32
                &&& wires@[i].excluded == segments@[i].excluded
                &&& wires@[i].exclude_reason == segments@[i].exclude_reason
                &&& wires@[i].timing == segments@[i].timing
            },
{
    let ghost all = segments@;
    let mut wires: Vec<SegmentWire<T>> = Vec::new();
    for s in it: segments.into_iter()
        invariant
            it.seq() == all,
            wires@ == all.take(it.index() as int).map_values(
                |s: TranscriptSegment<T>| segment_wire(s),
            ),
    {
        let ghost n = it.index() as int;
        let ghost before = wires@;
        assert(it.seq()[n] == s);
        wires.push(
            SegmentWire {
                segment_index: s.segment_index as i32,
                speaker_pseudo_id: s.speaker_pseudo_id,
                text: s.text,
                original_text: s.original_text,
                beat_id: to_index(s.beat_id),
                chunk_group: to_index(s.chunk_group),
                excluded: s.excluded,
                exclude_reason: s.exclude_reason,
                timing: s.timing,
            },
        );
        assert(wires@ =~= before.push(segment_wire(all[n])));
        assert(wires@ =~= all.take(n + 1).map_values(
            |s: TranscriptSegment<T>| segment_wire(s),
        ));
    }
    assert(all.take(all.len() as int) =~= all);
    wires
}

/// Beats in the form in which they are posted, in order.
pub fn to_beat_wires<T>(beats: Vec<PipelineBeat<T>>) -> (wires: Vec<BeatWire<T>>)
    ensures
        wires@ == beats@.map_values(|b: PipelineBeat<T>| beat_wire(b)),
        wires@.len() == beats@.len(),
        forall|i: int|
            #![trigger wires@[i]]
            #![trigger beats@[i]]
            0 <= i < wires@.len() ==> {
                &&& wires@[i].beat_index == beats@[i].beat_index as i32
                &&& wires@[i].title == beats@[i].title
                &&& wires@[i].summary == beats@[i].summary
                &&& wires@[i].timing == beats@[i].timing
            },
{
    let ghost all = beats@;
    let mut wires: Vec<BeatWire<T>> = Vec::new();
    for b in it: beats.into_iter()
        invariant
            it.seq() == all,
            wires@ == all.take(it.index() as int).map_values(|b: PipelineBeat<T>| beat_wire(b)),
    {
        let ghost n = it.index() as int;
        let ghost before = wires@;
        assert(it.seq()[n] == b);
        wires.push(
            BeatWire {
                beat_index: b.beat_index as i32,
                title: b.title,
                summary: b.summary,
                timing: b.timing,
            },
        );
        assert(wires@ =~= before.push(beat_wire(all[n])));
        assert(wires@ =~= all.take(n + 1).map_values(|b: PipelineBeat<T>| beat_wire(b)));
    }
    assert(all.take(all.len() as int) =~= all);
    wires
}

/// Scenes in the form in which they are posted, in order.
pub fn to_scene_wires<T>(scenes: Vec<PipelineScene<T>>) -> (wires: Vec<SceneWire<T>>)
    ensures
        wires@ == scenes@.map_values(|s: PipelineScene<T>| scene_wire(s)),
        wires@.len() == scenes@.len(),
        forall|i: int|
            #![trigger wires@[i]]
            #![trigger scenes@[i]]
            0 <= i < wires@.len() ==> {
                &&& wires@[i].scene_index == scenes@[i].scene_index as i32
                &&& wires@[i].title == scenes@[i].title
                &&& wires@[i].summary == scenes@[i].summary
                &&& wires@[i].beat_start == scenes@[i].beat_start as i32
                &&& wires@[i].beat_end == scenes@[i].beat_end as i32
                &&& wires@[i].timing == scenes@[i].timing
            },
{
    let ghost all = scenes@;
    let mut wires: Vec<SceneWire<T>> = Vec::new();
    for s in it: scenes.into_iter()
        invariant
            it.seq() == all,
            wires@ == all.take(it.index() as int).map_values(|s: PipelineScene<T>| scene_wire(s)),
    {
        let ghost n = it.index() as int;
        let ghost before = wires@;
        assert(it.seq()[n] == s);
        wires.push(
            SceneWire {
                scene_index: s.scene_index as i32,
                title: s.title,
                summary: s.summary,
                beat_start: s.beat_start as i32,
                beat_end: s.beat_end as i32,
                timing: s.timing,
            },
        );
        assert(wires@ =~= before.push(scene_wire(all[n])));
        assert(wires@ =~= all.take(n + 1).map_values(|s: PipelineScene<T>| scene_wire(s)));
    }
    assert(all.take(all.len() as int) =~= all);
    wires
}

/// A posted row says of its segment what the pipeline said of it. Numbers are
/// compared as 32-bit numbers, which they are on the wire.
pub open spec fn tells_segment<T>(row: SegmentWire<T>, s: TranscriptSegment<T>) -> bool {
    &&& row.segment_index == s.segment_index as i32
    &&& row.speaker_pseudo_id == s.speaker_pseudo_id
    &&& row.text == s.text
    &&& row.original_text == s.original_text
    &&& row.beat_id is Some == s.beat_id is Some
    &&& s.beat_id matches Some(b) ==> row.beat_id->0 == b as i32
    &&& row.chunk_group is Some == s.chunk_group is Some
    &&& s.chunk_group matches Some(g) ==> row.chunk_group->0 == g as i32
    &&& row.excluded == s.excluded
    &&& row.exclude_reason == s.exclude_reason
    &&& row.timing == s.timing
}

/// A posted row says of its beat what the pipeline said of it.
pub open spec fn tells_beat<T>(row: BeatWire<T>, b: PipelineBeat<T>) -> bool {
    &&& row.beat_index == b.beat_index as i32
    &&& row.title == b.title
    &&& row.summary == b.summary
    &&& row.timing == b.timing
}

/// A posted row says of its scene what the pipeline said of it.
pub open spec fn tells_scene<T>(row: SceneWire<T>, s: PipelineScene<T>) -> bool {
    &&& row.scene_index == s.scene_index as i32
    &&& row.title == s.title
    &&& row.summary == s.summary
    &&& row.beat_start == s.beat_start as i32
    &&& row.beat_end == s.beat_end as i32
    &&& row.timing == s.timing
}

/// The row of a segment, beat or scene agrees with it in every field.
pub proof fn rows_tell_what_the_pipeline_said<T>(
    s: TranscriptSegment<T>,
    b: PipelineBeat<T>,
    c: PipelineScene<T>,
)
    ensures
        tells_segment(segment_wire(s), s),
        tells_beat(beat_wire(b), b),
        tells_scene(scene_wire(c), c),
        s.segment_index <= i32::MAX ==> segment_wire(s).segment_index == s.segment_index,
        b.beat_index <= i32::MAX ==> beat_wire(b).beat_index == b.beat_index,
        c.scene_index <= i32::MAX ==> scene_wire(c).scene_index == c.scene_index,
{
}

/// A segment that streaming has not posted yet, when `posted` segments went
/// out: its index on the wire is not below that count on the wire.
pub open spec fn is_unposted<T>(wire: SegmentWire<T>, posted: u32) -> bool {
    wire.segment_index >= posted as i32
}

/// The segments that streaming has not posted yet, in order.
pub fn unposted_segments<T>(wires: Vec<SegmentWire<T>>, posted: u32) -> (rest: Vec<
    SegmentWire<T>,
>)
    ensures
        rest@ == wires@.filter(|w: SegmentWire<T>| is_unposted(w, posted)),
        forall|i: int|
            0 <= i < rest@.len() ==> (#[trigger] rest@[i]).segment_index >= posted as i32
                && wires@.contains(rest@[i]),
        forall|i: int|
            0 <= i < wires@.len() && (#[trigger] wires@[i]).segment_index >= posted as i32
                ==> rest@.contains(wires@[i]),
{
    let ghost all = wires@;
    let ghost pred = |w: SegmentWire<T>| is_unposted(w, posted);
    let mut rest: Vec<SegmentWire<T>> = Vec::new();
    let from: i32 = posted as i32;
    assert(rest@ =~= all.take(0).filter(pred)) by {
        reveal(Seq::filter);
    }
    for w in it: wires.into_iter()
        invariant
            it.seq() == all,
            from == posted as i32,
            pred == (|w: SegmentWire<T>| is_unposted(w, posted)),
            rest@ == all.take(it.index() as int).filter(pred),
    {
        let ghost n = it.index() as int;
        proof {
            assert(it.seq()[n] == w);
            assert(all.take(n + 1).drop_last() =~= all.take(n));
            assert(all.take(n + 1).last() == w);
            reveal(Seq::filter);
        }
        if w.segment_index >= from {
            rest.push(w);
        }
    }
    assert(all.take(all.len() as int) =~= all);
    proof {
        broadcast use vstd::seq_lib::group_filter_ensures;

        assert forall|i: int| 0 <= i < rest@.len() implies (#[trigger] rest@[i]).segment_index
            >= posted as i32 && all.contains(rest@[i]) by {
            assert(pred(rest@[i]));
            assert(rest@.contains(rest@[i]));
            all.lemma_filter_contains_rev(pred, rest@[i]);
        }
        assert forall|i: int|
            0 <= i < all.len() && (#[trigger] all[i]).segment_index
                >= posted as i32 implies rest@.contains(all[i]) by {
            assert(pred(all[i]));
        }
    }
    rest
}

proof fn filter_of_indexed<T>(wires: Seq<SegmentWire<T>>, posted: u32)
    requires
        posted <= i32::MAX,
        wires.len() <= i32::MAX,
        forall|i: int| 0 <= i < wires.len() ==> (#[trigger] wires[i]).segment_index == i,
    ensures
        wires.filter(|w: SegmentWire<T>| is_unposted(w, posted)) == (if posted <= wires.len() {
            wires.skip(posted as int)
        } else {
            Seq::empty()
        }),
    decreases wires.len(),
{
    let pred = |w: SegmentWire<T>| is_unposted(w, posted);
    reveal(Seq::filter);
    if wires.len() > 0 {
        let front = wires.drop_last();
        assert forall|i: int| 0 <= i < front.len() implies (
        #[trigger] front[i]).segment_index == i by {
            assert(front[i] == wires[i]);
        }
        filter_of_indexed(front, posted);
        assert(wires.last() == wires[wires.len() - 1]);
        if posted < wires.len() {
            assert(wires.skip(posted as int) =~= front.skip(posted as int).push(wires.last()));
        } else if posted == wires.len() {
            assert(wires.skip(posted as int) =~= Seq::empty());
        }
    } else {
        assert(wires.skip(0) =~= Seq::empty());
    }
}

/// With segments numbered 0, 1, 2 and so on, finalizing posts exactly those
/// behind the first `posted`: none is posted twice and none is left out.
pub proof fn finalize_posts_the_rest<T>(segments: Seq<TranscriptSegment<T>>, posted: u32)
    requires
        posted <= segments.len() <= i32::MAX,
        forall|i: int| 0 <= i < segments.len() ==> (#[trigger] segments[i]).segment_index == i,
    ensures
        segments.map_values(|s: TranscriptSegment<T>| segment_wire(s)).filter(
            |w: SegmentWire<T>| is_unposted(w, posted),
        ) == segments.skip(posted as int).map_values(|s: TranscriptSegment<T>| segment_wire(s)),
{
    let wires = segments.map_values(|s: TranscriptSegment<T>| segment_wire(s));
    assert forall|i: int| 0 <= i < wires.len() implies (
    #[trigger] wires[i]).segment_index == i by {
        assert(segments[i].segment_index == i);
    }
    filter_of_indexed(wires, posted);
    assert(wires.skip(posted as int) =~= segments.skip(posted as int).map_values(
        |s: TranscriptSegment<T>| segment_wire(s),
    ));
}

} // verus!
