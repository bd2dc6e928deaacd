//! Gathering of a session's audio, one track per consenting speaker.

use vstd::prelude::*;
use vstd::relations::{sorted_by, total_ordering};

use crate::api_client::{ChunkInfo, Participant};
use crate::decode::{decode_stereo_to_mono_i16, mono};
use crate::ids::{ChunkSeq, PseudoId};
use crate::pipeline::{track_contents, SpeakerTrack, TrackModel, CAPTURE_SAMPLE_RATE};
use crate::text::same_text;

verus! {

/// A participant who agreed to be transcribed and is known by a pseudonym.
/// Licence flags do not matter here: they gate publication, not transcription.
pub open spec fn consents(p: Participant) -> bool {
    &&& p.user_pseudo_id is Some
    &&& p.consent_scope matches Some(scope)
    &&& scope@ == "full"@
}

/// The pseudonyms of the consenting participants, in roster order.
pub open spec fn consented(roster: Seq<Participant>) -> Seq<Seq<char>> {
    roster.filter(|p: Participant| consents(p)).map_values(|p: Participant| p.user_pseudo_id->0@)
}

/// The pseudonyms in a list.
pub open spec fn names(speakers: Seq<PseudoId>) -> Seq<Seq<char>> {
    speakers.map_values(|p: PseudoId| p@)
}

/// The pseudonyms of the participants whose audio may be transcribed.
pub fn consented_speakers(roster: Vec<Participant>) -> (speakers: Vec<PseudoId>)
    ensures
        names(speakers@) == consented(roster@),
        forall|k: int|
            0 <= k < speakers@.len() ==> consented(roster@).contains(
                (#[trigger] speakers@[k])@,
            ),
{
    let ghost all = roster@;
    let ghost pred = |p: Participant| consents(p);
    let mut speakers: Vec<PseudoId> = Vec::new();
    assert(names(speakers@) =~= consented(all.take(0))) by {
        reveal(Seq::filter);
    }
    for p in it: roster.into_iter()
        invariant
            it.seq() == all,
            pred == (|p: Participant| consents(p)),
            names(speakers@) == consented(all.take(it.index() as int)),
    {
        let ghost n = it.index() as int;
        let ghost before = speakers@;
        proof {
            assert(it.seq()[n] == p);
            assert(all.take(n + 1).drop_last() =~= all.take(n));
            assert(all.take(n + 1).last() == p);
            reveal(Seq::filter);
            let kept = all.take(n).filter(pred);
            assert(kept.push(p).map_values(|p: Participant| p.user_pseudo_id->0@)
                =~= kept.map_values(|p: Participant| p.user_pseudo_id->0@).push(
                p.user_pseudo_id->0@,
            ));
        }
        if let Some(pseudo) = p.user_pseudo_id {
            if let Some(scope) = p.consent_scope {
                if same_text(scope.as_str(), "full") {
                    speakers.push(PseudoId(pseudo));
                    assert(names(speakers@) =~= names(before).push(pseudo@));
                }
            }
        }
    }
    assert(all.take(all.len() as int) =~= all);
    assert forall|k: int| 0 <= k < speakers@.len() implies consented(all).contains(
        (#[trigger] speakers@[k])@,
    ) by {
        assert(names(speakers@)[k] == speakers@[k]@);
    }
    speakers
}

/// The sequence numbers in a chunk listing.
pub open spec fn listed_seqs(chunks: Seq<ChunkInfo>) -> Seq<u32> {
    chunks.map_values(|c: ChunkInfo| c.seq)
}

/// Numbers in ascending order, with repetitions kept.
pub open spec fn ascending(seqs: Seq<u32>) -> Seq<u32> {
    seqs.sort_by(|a: u32, b: u32| a <= b)
}

/// What `ascending` is: the same numbers, each not above the next.
pub proof fn ascending_is_sorted(seqs: Seq<u32>)
    ensures
        ascending(seqs).to_multiset() == seqs.to_multiset(),
        ascending(seqs).len() == seqs.len(),
        forall|i: int, j: int|
            0 <= i <= j < ascending(seqs).len() ==> ascending(seqs)[i] <= ascending(seqs)[j],
{
    let leq = |a: u32, b: u32| a <= b;
    assert(total_ordering(leq));
    seqs.lemma_sort_by_ensures(leq);
    seqs.to_multiset_ensures();
    ascending(seqs).to_multiset_ensures();
    assert(sorted_by(ascending(seqs), leq));
    assert forall|i: int, j: int| 0 <= i <= j < ascending(seqs).len() implies ascending(seqs)[i]
        <= ascending(seqs)[j] by {
        if i < j {
            assert(leq(ascending(seqs)[i], ascending(seqs)[j]));
        }
    }
}

/// There is only one ascending order of a list of numbers.
pub proof fn sorted_is_ascending(seqs: Seq<u32>, sorted: Seq<u32>)
    requires
        sorted.to_multiset() == seqs.to_multiset(),
        forall|i: int, j: int| 0 <= i <= j < sorted.len() ==> sorted[i] <= sorted[j],
    ensures
        sorted == ascending(seqs),
{
    let leq = |a: u32, b: u32| a <= b;
    assert(total_ordering(leq));
    seqs.lemma_sort_by_ensures(leq);
    assert(sorted_by(sorted, leq));
    vstd::seq_lib::lemma_sorted_unique(sorted, ascending(seqs), leq);
}

/// The order in which listed chunks are downloaded: by sequence number,
/// whatever the order of the listing.
pub fn download_order(chunks: &Vec<ChunkInfo>) -> (order: Vec<u32>)
    ensures
        order@ == ascending(listed_seqs(chunks@)),
        order@.len() == chunks@.len(),
        order@.to_multiset() == chunks@.map_values(|c: ChunkInfo| c.seq).to_multiset(),
        forall|i: int, j: int| 0 <= i <= j < order@.len() ==> order@[i] <= order@[j],
{
    let ghost all = listed_seqs(chunks@);
    let mut order: Vec<u32> = Vec::new();
    let mut n: usize = 0;
    assert(order@ =~= all.take(0));
    while n < chunks.len()
        invariant
            n <= chunks.len(),
            all == listed_seqs(chunks@),
            order@.len() == n,
            order@.to_multiset() == all.take(n as int).to_multiset(),
            forall|i: int, j: int| 0 <= i <= j < order@.len() ==> order@[i] <= order@[j],
        decreases chunks.len() - n,
    {
        let seq: u32 = chunks[n].seq;
        let mut at: usize = order.len();
        while at > 0 && order[at - 1] > seq
            invariant
                at <= order@.len(),
                forall|i: int, j: int| 0 <= i <= j < order@.len() ==> order@[i] <= order@[j],
                forall|i: int| at <= i < order@.len() ==> order@[i] > seq,
            decreases at,
        {
            at = at - 1;
        }
        let ghost before = order@;
        order.insert(at, seq);
        proof {
            vstd::seq_lib::to_multiset_insert(before, at as int, seq);
            assert(order@ =~= before.insert(at as int, seq));
            vstd::seq_lib::to_multiset_build(all.take(n as int), seq);
            assert(all.take(n + 1) =~= all.take(n as int).push(seq));
            assert forall|i: int, j: int| 0 <= i <= j < order@.len() implies order@[i]
                <= order@[j] by {
                if j < at {
                    assert(order@[i] == before[i] && order@[j] == before[j]);
                } else if i > at {
                    assert(order@[i] == before[i - 1] && order@[j] == before[j - 1]);
                } else if i < at {
                    assert(order@[i] == before[i]);
                    assert(before[i] <= before[at - 1]);
                }
            }
        }
        n = n + 1;
    }
    proof {
        assert(all.take(all.len() as int) =~= all);
        sorted_is_ascending(all, order@);
    }
    order
}

/// Where the gathering stands: the speakers still to do (the first one is
/// under way), the chunks of that speaker still to download once they are
/// listed, that speaker's bytes so far, and the finished tracks.
#[verifier::ext_equal]
pub struct CollectorModel {
    pub speakers: Seq<Seq<char>>,
    pub order: Option<Seq<u32>>,
    pub raw: Seq<u8>,
    pub tracks: Seq<TrackModel>,
}

/// What is needed next.
#[verifier::ext_equal]
pub enum NeedModel {
    Listing(Seq<char>),
    Chunk(Seq<char>, u32),
    Nothing,
}

impl CollectorModel {
    pub open spec fn start(speakers: Seq<Seq<char>>) -> CollectorModel {
        CollectorModel { speakers, order: None, raw: Seq::empty(), tracks: Seq::empty() }
    }

    /// A listed speaker has chunks left.
    pub open spec fn wf(self) -> bool {
        self.order matches Some(order) ==> self.speakers.len() > 0 && order.len() > 0
    }

    pub open spec fn need(self) -> NeedModel {
        if self.speakers.len() == 0 {
            NeedModel::Nothing
        } else {
            match self.order {
                None => NeedModel::Listing(self.speakers[0]),
                Some(order) => NeedModel::Chunk(self.speakers[0], order[0]),
            }
        }
    }

    /// The first speaker's chunks were listed. A speaker without chunks is
    /// passed over.
    pub open spec fn listed(self, seqs: Seq<u32>) -> CollectorModel {
        if seqs.len() == 0 {
            CollectorModel { speakers: self.speakers.drop_first(), ..self }
        } else {
            CollectorModel { order: Some(ascending(seqs)), raw: Seq::empty(), ..self }
        }
    }

    /// A download ended. A chunk that could not be downloaded leaves a gap in
    /// the speaker's audio; behind the last chunk the track is finished.
    pub open spec fn downloaded(self, bytes: Option<Seq<u8>>) -> CollectorModel {
        let raw = match bytes {
            Some(b) => self.raw + b,
            None => self.raw,
        };
        let rest = self.order->0.drop_first();
        if rest.len() > 0 {
            CollectorModel { order: Some(rest), raw, ..self }
        } else {
            CollectorModel {
                speakers: self.speakers.drop_first(),
                order: None,
                raw,
                tracks: self.tracks.push((self.speakers[0], mono(raw), CAPTURE_SAMPLE_RATE)),
            }
        }
    }

    /// The replies of one speaker: the listing, then one outcome per download.
    pub open spec fn replies(self, script: SpeakerScript) -> CollectorModel {
        self.listed(script.listing).downloads(script.downloads)
    }

    pub open spec fn downloads(self, outcomes: Seq<Option<Seq<u8>>>) -> CollectorModel
        decreases outcomes.len(),
    {
        if outcomes.len() == 0 {
            self
        } else {
            self.downloaded(outcomes[0]).downloads(outcomes.drop_first())
        }
    }

    pub open spec fn all_replies(self, scripts: Seq<SpeakerScript>) -> CollectorModel
        decreases scripts.len(),
    {
        if scripts.len() == 0 {
            self
        } else {
            self.replies(scripts[0]).all_replies(scripts.drop_first())
        }
    }
}

/// What the data-api answers for one speaker: the listed chunks, and for each
/// of them, in ascending order, the bytes or a failure.
pub struct SpeakerScript {
    pub listing: Seq<u32>,
    pub downloads: Seq<Option<Seq<u8>>>,
}

impl SpeakerScript {
    pub open spec fn wf(self) -> bool {
        self.listing.len() == self.downloads.len()
    }
}

/// The bytes of the downloads that succeeded, end to end.
pub open spec fn joined(outcomes: Seq<Option<Seq<u8>>>) -> Seq<u8>
    decreases outcomes.len(),
{
    if outcomes.len() == 0 {
        Seq::empty()
    } else {
        (match outcomes[0] {
            Some(b) => b,
            None => Seq::empty(),
        }) + joined(outcomes.drop_first())
    }
}

/// The tracks that speakers and their scripts amount to: one for each speaker
/// who has chunks.
pub open spec fn expected_tracks(
    speakers: Seq<Seq<char>>,
    scripts: Seq<SpeakerScript>,
) -> Seq<TrackModel>
    decreases speakers.len(),
{
    if speakers.len() == 0 {
        Seq::empty()
    } else {
        let rest = expected_tracks(speakers.drop_first(), scripts.drop_first());
        if scripts[0].listing.len() == 0 {
            rest
        } else {
            seq![(speakers[0], mono(joined(scripts[0].downloads)), CAPTURE_SAMPLE_RATE)] + rest
        }
    }
}

/// The audio of two lots of downloads is the audio of the first, then that of
/// the second. A download gives all its bytes as they came, and one that failed
/// gives none.
pub proof fn downloads_are_joined_in_order(
    a: Seq<Option<Seq<u8>>>,
    b: Seq<Option<Seq<u8>>>,
    bytes: Seq<u8>,
)
    ensures
        joined(a + b) == joined(a) + joined(b),
        joined(seq![Some(bytes)]) == bytes,
        joined(seq![None::<Seq<u8>>]).len() == 0,
    decreases a.len(),
{
    reveal_with_fuel(joined, 2);
    let none = Seq::<u8>::empty();
    assert(seq![Some(bytes)].drop_first() =~= Seq::empty());
    assert(seq![None::<Seq<u8>>].drop_first() =~= Seq::empty());
    assert(bytes + none =~= bytes);
    assert(none + none =~= none);
    if a.len() == 0 {
        assert(a + b =~= b);
        assert(none + joined(b) =~= joined(b));
    } else {
        downloads_are_joined_in_order(a.drop_first(), b, bytes);
        assert((a + b).drop_first() =~= a.drop_first() + b);
        assert((a + b)[0] == a[0]);
        assert(joined(a + b) =~= joined(a) + joined(b));
    }
}

/// A speaker who has chunks gets exactly one track, behind those that are
/// there, under the speaker's name and at the rate of the recording, whatever
/// became of the downloads; one without chunks gets none. Either way the next
/// speaker follows.
pub proof fn each_listed_speaker_gets_one_track(c: CollectorModel, script: SpeakerScript)
    requires
        c.speakers.len() > 0,
        c.order is None,
        script.listing.len() == script.downloads.len(),
    ensures
        ({
            let d = c.replies(script);
            &&& d.speakers == c.speakers.skip(1)
            &&& script.listing.len() == 0 ==> d.tracks == c.tracks
            &&& script.listing.len() > 0 ==> {
                &&& d.tracks.len() == c.tracks.len() + 1
                &&& forall|i: int| 0 <= i < c.tracks.len() ==> #[trigger] d.tracks[i] == c.tracks[i]
                &&& d.tracks.last().0 == c.speakers[0]
                &&& d.tracks.last().1 == mono(joined(script.downloads))
                &&& d.tracks.last().2 == 48_000
            }
        }),
{
    one_speaker(c, script);
    assert(c.speakers.drop_first() =~= c.speakers.skip(1));
}

proof fn speaker_downloads(c: CollectorModel, outcomes: Seq<Option<Seq<u8>>>)
    requires
        c.speakers.len() > 0,
        c.order is Some,
        c.order->0.len() == outcomes.len() > 0,
    ensures
        ({
            let d = c.downloads(outcomes);
            &&& d.speakers == c.speakers.drop_first()
            &&& d.order is None
            &&& d.tracks == c.tracks.push(
                (c.speakers[0], mono(c.raw + joined(outcomes)), CAPTURE_SAMPLE_RATE),
            )
        }),
    decreases outcomes.len(),
{
    let next = c.downloaded(outcomes[0]);
    let rest = outcomes.drop_first();
    let head = match outcomes[0] {
        Some(b) => b,
        None => Seq::<u8>::empty(),
    };
    assert(c.raw + joined(outcomes) =~= (c.raw + head) + joined(rest));
    assert(next.raw =~= c.raw + head);
    if rest.len() == 0 {
        assert(next.downloads(rest) == next);
        assert(joined(rest) =~= Seq::<u8>::empty());
        assert(c.raw + joined(outcomes) =~= next.raw);
    } else {
        speaker_downloads(next, rest);
    }
}

/// One speaker's replies finish that speaker: with a track, or without one where
/// there are no chunks.
pub proof fn one_speaker(c: CollectorModel, script: SpeakerScript)
    requires
        c.speakers.len() > 0,
        c.order is None,
        script.wf(),
    ensures
        ({
            let d = c.replies(script);
            &&& d.speakers == c.speakers.drop_first()
            &&& d.order is None
            &&& d.tracks == c.tracks + (if script.listing.len() == 0 {
                Seq::empty()
            } else {
                seq![(c.speakers[0], mono(joined(script.downloads)), CAPTURE_SAMPLE_RATE)]
            })
        }),
{
    let l = c.listed(script.listing);
    if script.listing.len() == 0 {
        assert(l.downloads(script.downloads) == l);
        assert(c.tracks + Seq::<TrackModel>::empty() =~= c.tracks);
    } else {
        ascending_is_sorted(script.listing);
        speaker_downloads(l, script.downloads);
        assert(l.raw + joined(script.downloads) =~= joined(script.downloads));
        let track = (c.speakers[0], mono(joined(script.downloads)), CAPTURE_SAMPLE_RATE);
        assert(c.tracks.push(track) =~= c.tracks + seq![track]);
    }
}

/// A gathering that has been answered in full holds one track for each
/// consenting speaker who has chunks, in roster order, with all the audio that
/// could be downloaded, in sequence order.
pub proof fn tracks_hold_each_speakers_audio(
    c: CollectorModel,
    scripts: Seq<SpeakerScript>,
)
    requires
        c.order is None,
        scripts.len() == c.speakers.len(),
        forall|i: int| 0 <= i < scripts.len() ==> (#[trigger] scripts[i]).wf(),
    ensures
        c.all_replies(scripts).need() is Nothing,
        c.all_replies(scripts).tracks == c.tracks + expected_tracks(c.speakers, scripts),
    decreases scripts.len(),
{
    if scripts.len() == 0 {
        assert(c.tracks + Seq::<TrackModel>::empty() =~= c.tracks);
    } else {
        one_speaker(c, scripts[0]);
        let d = c.replies(scripts[0]);
        let rest = scripts.drop_first();
        assert forall|i: int| 0 <= i < rest.len() implies (#[trigger] rest[i]).wf() by {
            assert(rest[i] == scripts[i + 1]);
        }
        tracks_hold_each_speakers_audio(d, rest);
        assert(c.all_replies(scripts).tracks =~= c.tracks + expected_tracks(c.speakers, scripts));
    }
}

/// Every track of an answered gathering belongs to a speaker of the gathering.
pub proof fn only_speakers_get_tracks(speakers: Seq<Seq<char>>, scripts: Seq<SpeakerScript>)
    requires
        scripts.len() == speakers.len(),
    ensures
        forall|i: int|
            0 <= i < expected_tracks(speakers, scripts).len() ==> speakers.contains(
                (#[trigger] expected_tracks(speakers, scripts)[i]).0,
            ),
    decreases speakers.len(),
{
    if speakers.len() > 0 {
        only_speakers_get_tracks(speakers.drop_first(), scripts.drop_first());
        let rest = expected_tracks(speakers.drop_first(), scripts.drop_first());
        let all = expected_tracks(speakers, scripts);
        assert forall|i: int| 0 <= i < all.len() implies speakers.contains(
            (#[trigger] all[i]).0,
        ) by {
            let skipped: int = if scripts[0].listing.len() == 0 {
                0
            } else {
                1
            };
            if i < skipped {
                assert(speakers[0] == all[i].0);
            } else {
                assert(all[i] == rest[i - skipped]);
                let name = rest[i - skipped].0;
                assert(speakers.drop_first().contains(name));
                let k = choose|k: int|
                    0 <= k < speakers.drop_first().len() && speakers.drop_first()[k] == name;
                assert(speakers[k + 1] == name);
            }
        }
    }
}

/// Nobody is transcribed who did not consent: every name among the consented
/// belongs to a participant of the roster who consents.
pub proof fn only_consenting_participants(roster: Seq<Participant>, name: Seq<char>)
    requires
        consented(roster).contains(name),
    ensures
        exists|i: int|
            0 <= i < roster.len() && consents(#[trigger] roster[i])
                && roster[i].user_pseudo_id->0@ == name,
        exists|i: int|
            0 <= i < roster.len() && (#[trigger] roster[i]).user_pseudo_id is Some
                && roster[i].user_pseudo_id->0@ == name && roster[i].consent_scope is Some
                && roster[i].consent_scope->0@ == "full"@,
    decreases roster.len(),
{
    reveal(Seq::filter);
    let pred = |p: Participant| consents(p);
    if roster.len() == 0 {
        assert(consented(roster) =~= Seq::empty());
    } else {
        let front = roster.drop_last();
        let last = roster.last();
        if pred(last) {
            assert(consented(roster) =~= consented(front).push(last.user_pseudo_id->0@));
        } else {
            assert(consented(roster) =~= consented(front));
        }
        let k = choose|k: int| 0 <= k < consented(roster).len() && consented(roster)[k] == name;
        if k < consented(front).len() {
            assert(consented(front)[k] == name);
            only_consenting_participants(front, name);
            let i = choose|i: int|
                0 <= i < front.len() && consents(#[trigger] front[i])
                    && front[i].user_pseudo_id->0@ == name;
            assert(roster[i] == front[i]);
        } else {
            assert(roster[roster.len() - 1] == last);
        }
    }
}

/// One participant more adds one speaker at the end where the participant has a
/// pseudonym and the scope of their consent is `full`, and none otherwise.
pub proof fn consent_decides_who_is_transcribed(roster: Seq<Participant>, p: Participant)
    ensures
        consented(Seq::empty()) == Seq::<Seq<char>>::empty(),
        p.user_pseudo_id is Some && p.consent_scope is Some && p.consent_scope->0@ == "full"@
            ==> consented(roster.push(p)) == consented(roster).push(p.user_pseudo_id->0@),
        p.user_pseudo_id is None || p.consent_scope is None || p.consent_scope->0@ != "full"@
            ==> consented(roster.push(p)) == consented(roster),
{
    reveal(Seq::filter);
    let pred = |p: Participant| consents(p);
    assert(Seq::<Participant>::empty().filter(pred) =~= Seq::empty());
    assert(consented(Seq::empty()) =~= Seq::<Seq<char>>::empty());
    assert(roster.push(p).drop_last() =~= roster);
    assert(roster.push(p).last() == p);
    if consents(p) {
        assert(roster.push(p).filter(pred) == roster.filter(pred).push(p));
        assert(consented(roster.push(p)) =~= consented(roster).push(p.user_pseudo_id->0@));
    }
}

/// What is needed next to gather a session's audio.
pub enum Need {
    /// The speaker's chunk listing.
    Listing(PseudoId),
    /// One chunk's bytes.
    Chunk(PseudoId, ChunkSeq),
    /// Nothing: all tracks are finished.
    Nothing,
}

impl View for Need {
    type V = NeedModel;

    open spec fn view(&self) -> NeedModel {
        match self {
            Need::Listing(pseudo) => NeedModel::Listing(pseudo@),
            Need::Chunk(pseudo, seq) => NeedModel::Chunk(pseudo@, seq.0),
            Need::Nothing => NeedModel::Nothing,
        }
    }
}

/// The bytes that a download yielded.
pub open spec fn outcome(bytes: Option<Vec<u8>>) -> Option<Seq<u8>> {
    match bytes {
        Some(b) => Some(b@),
        None => None,
    }
}

/// Gathers a session's audio. The caller answers each need in turn.
pub struct TrackCollector {
    speakers: Vec<PseudoId>,
    done: usize,
    listed: bool,
    order: Vec<u32>,
    at: usize,
    raw: Vec<u8>,
    tracks: Vec<SpeakerTrack>,
}

impl View for TrackCollector {
    type V = CollectorModel;

    closed spec fn view(&self) -> CollectorModel {
        CollectorModel {
            speakers: names(self.speakers@).skip(self.done as int),
            order: if self.listed {
                Some(self.order@.skip(self.at as int))
            } else {
                None
            },
            raw: self.raw@,
            tracks: track_contents(self.tracks@),
        }
    }
}

impl TrackCollector {
    pub closed spec fn wf(self) -> bool {
        &&& self.done <= self.speakers@.len()
        &&& self.listed ==> self.done < self.speakers@.len() && self.at < self.order@.len()
    }

    /// Begin with the consenting participants of a roster.
    pub fn new(roster: Vec<Participant>) -> (c: TrackCollector)
        ensures
            c.wf(),
            c@ == CollectorModel::start(consented(roster@)),
            c@.wf(),
    {
        let c = TrackCollector {
            speakers: consented_speakers(roster),
            done: 0,
            listed: false,
            order: Vec::new(),
            at: 0,
            raw: Vec::new(),
            tracks: Vec::new(),
        };
        assert(c@ =~= CollectorModel::start(consented(roster@)));
        c
    }

    /// What is needed next.
    pub fn need(&self) -> (n: Need)
        requires
            self.wf(),
        ensures
            n@ == self@.need(),
            self@.wf(),
    {
        if self.done == self.speakers.len() {
            Need::Nothing
        } else if self.listed {
            Need::Chunk(self.speakers[self.done].clone(), ChunkSeq(self.order[self.at]))
        } else {
            Need::Listing(self.speakers[self.done].clone())
        }
    }

    /// Answer a need for a listing.
    pub fn on_listing(&mut self, chunks: &Vec<ChunkInfo>)
        requires
            old(self).wf(),
            old(self)@.need() is Listing,
        ensures
            final(self).wf(),
            final(self)@ == old(self)@.listed(listed_seqs(chunks@)),
    {
        let ghost before = self@;
        if chunks.len() == 0 {
            assert(self.done < self.speakers.len());
            self.done = self.done + 1;
            assert(self@ =~= before.listed(listed_seqs(chunks@)));
        } else {
            self.order = download_order(chunks);
            self.at = 0;
            self.raw = Vec::new();
            self.listed = true;
            proof {
                ascending_is_sorted(listed_seqs(chunks@));
                assert(self.order@.skip(0) =~= self.order@);
                assert(self@ =~= before.listed(listed_seqs(chunks@)));
            }
        }
    }

    /// Answer a need for a chunk; `None` when it could not be downloaded.
    pub fn on_chunk(&mut self, bytes: Option<Vec<u8>>)
        requires
            old(self).wf(),
            old(self)@.need() is Chunk,
        ensures
            final(self).wf(),
            final(self)@ == old(self)@.downloaded(outcome(bytes)),
    {
        let ghost before = self@;
        if let Some(b) = bytes {
            let mut b = b;
            self.raw.append(&mut b);
        }
        assert(self.at < self.order.len());
        self.at = self.at + 1;
        assert(self.order@.skip(self.at as int) =~= before.order->0.drop_first());
        if self.at == self.order.len() {
            let ghost tracks = self.tracks@;
            self.tracks.push(
                SpeakerTrack {
                    pseudo_id: self.speakers[self.done].clone(),
                    samples: decode_stereo_to_mono_i16(self.raw.as_slice()),
                    sample_rate: CAPTURE_SAMPLE_RATE,
                },
            );
            assert(self.done < self.speakers.len());
            self.done = self.done + 1;
            self.listed = false;
            proof {
                assert(track_contents(self.tracks@) =~= track_contents(tracks).push(
                    self.tracks@.last()@,
                ));
                assert(self@.speakers =~= before.speakers.drop_first());
            }
        }
        assert(self@ =~= before.downloaded(outcome(bytes)));
    }

    /// The finished tracks.
    pub fn into_tracks(self) -> (tracks: Vec<SpeakerTrack>)
        ensures
            track_contents(tracks@) == self@.tracks,
    {
        self.tracks
    }
}

} // verus!
