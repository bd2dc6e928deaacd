//! Ordering of audio chunks, per speaker.
//!
//! Chunk events may be repeated and may arrive out of order. A lane hands each
//! chunk of a speaker on exactly once, in sequence order, and holds back what
//! came too early.

use std::collections::BTreeMap;

use vstd::prelude::*;

use crate::decode::{decode_stereo_to_mono_i16, mono};
use crate::ids::{ChunkSeq, PseudoId};

verus! {

/// A chunk that is ready for the pipeline.
pub struct FeedChunk {
    pub seq: u32,
    pub samples: Vec<i16>,
}

impl View for FeedChunk {
    type V = (u32, Seq<i16>);

    open spec fn view(&self) -> (u32, Seq<i16>) {
        (self.seq, self.samples@)
    }
}

/// The content of a list of ready chunks.
pub open spec fn fed(chunks: Seq<FeedChunk>) -> Seq<(u32, Seq<i16>)> {
    chunks.map_values(|c: FeedChunk| c@)
}

/// One speaker's lane: every chunk below `next` has been handed on, and
/// `pending` holds the raw bytes of chunks that came early.
#[verifier::ext_equal]
pub struct LaneModel {
    pub next: nat,
    pub pending: Map<u32, Seq<u8>>,
}

/// The first number from `start` on that `pending` does not hold.
pub open spec fn run_end(pending: Map<u32, Seq<u8>>, start: nat) -> nat
    decreases u32::MAX + 1 - start,
{
    if start <= u32::MAX && pending.contains_key(start as u32) {
        run_end(pending, start + 1)
    } else {
        start
    }
}

/// The decoded chunks from `from` up to `to`, in order.
pub open spec fn run_chunks(pending: Map<u32, Seq<u8>>, from: nat, to: nat) -> Seq<
    (u32, Seq<i16>),
> {
    Seq::new(
        (to - from) as nat,
        |i: int| ((from + i) as u32, mono(pending[(from + i) as u32])),
    )
}

impl LaneModel {
    /// The lane of a speaker of whom nothing has arrived.
    pub open spec fn empty() -> LaneModel {
        LaneModel { next: 0, pending: Map::empty() }
    }

    /// What is held back came early: it lies beyond the next number.
    pub open spec fn wf(self) -> bool {
        &&& self.next <= u32::MAX + 1
        &&& forall|k: u32| #[trigger] self.pending.contains_key(k) ==> k > self.next
    }

    /// Chunk `seq` has been handed on.
    pub open spec fn seen(self, seq: u32) -> bool {
        seq < self.next
    }

    /// The lane after chunk `seq` arrived with content `raw`, and the chunks
    /// that are handed on at that moment.
    ///
    /// A repeated chunk changes nothing, an early one is held back, and the
    /// expected one releases itself and the unbroken run behind it.
    pub open spec fn arrive(self, seq: u32, raw: Seq<u8>) -> (LaneModel, Seq<(u32, Seq<i16>)>) {
        let held = self.pending.insert(seq, raw);
        if self.seen(seq) {
            (self, Seq::empty())
        } else if seq != self.next {
            (LaneModel { next: self.next, pending: held }, Seq::empty())
        } else {
            let end = run_end(held, self.next);
            (
                LaneModel {
                    next: end,
                    pending: held.restrict(Set::new(|k: u32| k >= end)),
                },
                run_chunks(held, self.next, end),
            )
        }
    }

    /// The lane after a list of arrivals, and all that was handed on, in order.
    pub open spec fn deliver(self, arrivals: Seq<(u32, Seq<u8>)>) -> (
        LaneModel,
        Seq<(u32, Seq<i16>)>,
    )
        decreases arrivals.len(),
    {
        if arrivals.len() == 0 {
            (self, Seq::empty())
        } else {
            let before = self.deliver(arrivals.drop_last());
            let step = before.0.arrive(arrivals.last().0, arrivals.last().1);
            (step.0, before.1 + step.1)
        }
    }
}

/// What `run_end` is: the end of the unbroken run.
pub proof fn run_end_is_first_gap(pending: Map<u32, Seq<u8>>, start: nat)
    requires
        start <= u32::MAX + 1,
    ensures
        start <= run_end(pending, start) <= u32::MAX + 1,
        forall|k: u32|
            start <= k < run_end(pending, start) ==> #[trigger] pending.contains_key(k),
        run_end(pending, start) <= u32::MAX ==> !pending.contains_key(
            run_end(pending, start) as u32,
        ),
    decreases u32::MAX + 1 - start,
{
    if start <= u32::MAX && pending.contains_key(start as u32) {
        run_end_is_first_gap(pending, start + 1);
    }
}

/// An arrival keeps the lane well formed, and never takes the next number back.
pub proof fn arrive_keeps_lane(lane: LaneModel, seq: u32, raw: Seq<u8>)
    requires
        lane.wf(),
    ensures
        lane.arrive(seq, raw).0.wf(),
        lane.next <= lane.arrive(seq, raw).0.next,
{
    let held = lane.pending.insert(seq, raw);
    if !lane.seen(seq) && seq == lane.next {
        run_end_is_first_gap(held, lane.next);
        let end = run_end(held, lane.next);
        let post = lane.arrive(seq, raw).0;
        assert forall|k: u32| #[trigger] post.pending.contains_key(k) implies k > post.next by {
            assert(held.contains_key(k));
        }
    }
}

/// A chunk that was handed on already is passed over, and one that comes early
/// is kept and hands nothing on; the copy that came last is the one kept.
pub proof fn late_and_early_chunks_hand_nothing_on(lane: LaneModel, seq: u32, raw: Seq<u8>)
    requires
        seq != lane.next,
    ensures
        lane.arrive(seq, raw).1.len() == 0,
        lane.arrive(seq, raw).0.next == lane.next,
        seq < lane.next ==> lane.arrive(seq, raw).0.pending == lane.pending,
        seq > lane.next ==> lane.arrive(seq, raw).0.pending == lane.pending.insert(seq, raw),
{
}

/// The chunk that is next hands itself on, and behind it, in order, the chunks
/// that were waiting up to the first gap. What waits behind the gap goes on
/// waiting.
pub proof fn the_next_chunk_frees_those_behind_it(lane: LaneModel, raw: Seq<u8>)
    requires
        lane.wf(),
        lane.next <= u32::MAX,
    ensures
        ({
            let (post, ready) = lane.arrive(lane.next as u32, raw);
            &&& post.next == lane.next + ready.len()
            &&& ready.len() > 0
            &&& ready[0].0 == lane.next
            &&& ready[0].1 == mono(raw)
            &&& forall|i: int|
                0 < i < ready.len() ==> (#[trigger] ready[i]).0 == lane.next + i
                    && lane.pending.contains_key(ready[i].0) && ready[i].1 == mono(
                    lane.pending[ready[i].0],
                )
            &&& post.next <= u32::MAX ==> !lane.pending.contains_key(post.next as u32)
            &&& forall|k: u32| #[trigger]
                post.pending.contains_key(k) <==> lane.pending.contains_key(k) && k > post.next
            &&& forall|k: u32| #[trigger]
                post.pending.contains_key(k) ==> post.pending[k] == lane.pending[k]
        }),
{
    let seq = lane.next as u32;
    let held = lane.pending.insert(seq, raw);
    let end = run_end(held, lane.next);
    let (post, ready) = lane.arrive(seq, raw);
    run_end_is_first_gap(held, lane.next);
    assert(held.contains_key(seq));
    assert(end > lane.next);
    assert forall|i: int| 0 < i < ready.len() implies (#[trigger] ready[i]).0 == lane.next + i
        && lane.pending.contains_key(ready[i].0) && ready[i].1 == mono(
        lane.pending[ready[i].0],
    ) by {
        let k = (lane.next + i) as u32;
        assert(held.contains_key(k));
    }
    assert forall|k: u32| #[trigger]
        post.pending.contains_key(k) <==> lane.pending.contains_key(k) && k > post.next by {
        assert(held.contains_key(k) <==> lane.pending.contains_key(k) || k == seq);
        if k == end {
            assert(!held.contains_key(end as u32));
        }
    }
}

/// Chunk `seq` is among `arrivals`.
pub open spec fn arrived(arrivals: Seq<(u32, Seq<u8>)>, seq: u32) -> bool {
    exists|i: int| 0 <= i < arrivals.len() && (#[trigger] arrivals[i]).0 == seq
}

/// The decoded chunks below `next`, in order.
pub open spec fn in_order(content: spec_fn(u32) -> Seq<u8>, next: nat) -> Seq<(u32, Seq<i16>)> {
    Seq::new(next, |k: int| (k as u32, mono(content(k as u32))))
}

/// Every arrival of a chunk carries that chunk's bytes.
pub open spec fn faithful(
    arrivals: Seq<(u32, Seq<u8>)>,
    content: spec_fn(u32) -> Seq<u8>,
) -> bool {
    forall|i: int|
        0 <= i < arrivals.len() ==> (#[trigger] arrivals[i]).1 == content(arrivals[i].0)
}

/// However often and in whatever order chunks arrive, what is handed on is
/// chunk 0, 1, 2 and so on, each once, up to the first one that is missing;
/// what arrived beyond the gap is held back.
pub proof fn chunks_are_delivered_once_in_order(
    arrivals: Seq<(u32, Seq<u8>)>,
    content: spec_fn(u32) -> Seq<u8>,
)
    requires
        faithful(arrivals, content),
    ensures
        ({
            let (lane, log) = LaneModel::empty().deliver(arrivals);
            &&& lane.wf()
            &&& log == in_order(content, lane.next)
            &&& forall|k: u32| k < lane.next ==> arrived(arrivals, k)
            &&& lane.next <= u32::MAX ==> !arrived(arrivals, lane.next as u32)
            &&& forall|k: u32|
                #[trigger] lane.pending.contains_key(k) <==> arrived(arrivals, k) && k > lane.next
            &&& forall|k: u32| #[trigger]
                lane.pending.contains_key(k) ==> lane.pending[k] == content(k)
        }),
    decreases arrivals.len(),
{
    let (post, log) = LaneModel::empty().deliver(arrivals);
    if arrivals.len() == 0 {
        assert(log =~= in_order(content, 0));
    } else {
        let earlier = arrivals.drop_last();
        let seq = arrivals.last().0;
        let raw = arrivals.last().1;
        assert(faithful(earlier, content)) by {
            assert forall|i: int| 0 <= i < earlier.len() implies (#[trigger] earlier[i]).1
                == content(earlier[i].0) by {
                assert(arrivals[i] == earlier[i]);
            }
        }
        chunks_are_delivered_once_in_order(earlier, content);
        let (pre, pre_log) = LaneModel::empty().deliver(earlier);
        let held = pre.pending.insert(seq, raw);
        assert(raw == content(seq)) by {
            assert(arrivals[arrivals.len() - 1].1 == content(seq));
        }
        assert forall|k: u32| arrived(arrivals, k) == (arrived(earlier, k) || k == seq) by {
            if arrived(earlier, k) {
                let i = choose|i: int| 0 <= i < earlier.len() && (#[trigger] earlier[i]).0 == k;
                assert(arrivals[i].0 == k);
            }
            if k == seq {
                assert(arrivals[arrivals.len() - 1].0 == k);
            }
            if arrived(arrivals, k) && k != seq {
                let i = choose|i: int| 0 <= i < arrivals.len() && (#[trigger] arrivals[i]).0 == k;
                assert(earlier[i].0 == k);
            }
        }
        arrive_keeps_lane(pre, seq, raw);
        if pre.seen(seq) {
            assert(log =~= in_order(content, post.next));
        } else if seq != pre.next {
            assert(log =~= in_order(content, post.next));
        } else {
            run_end_is_first_gap(held, pre.next);
            let end = run_end(held, pre.next);
            assert forall|k: u32| pre.next <= k < end implies held[k] == content(k) by {
                assert(held.contains_key(k));
            }
            assert(log =~= in_order(content, end)) by {
                assert forall|i: int| 0 <= i < log.len() implies log[i] == in_order(
                    content,
                    end,
                )[i] by {
                    if i >= pre.next {
                        assert(held[i as u32] == content(i as u32));
                    }
                }
            }
            assert forall|k: u32| k < end implies arrived(arrivals, k) by {
                if k >= pre.next {
                    assert(held.contains_key(k));
                }
            }
            assert forall|k: u32| #[trigger] post.pending.contains_key(k) <==> arrived(arrivals, k)
                && k > post.next by {
                assert(held.contains_key(k) <==> k == seq || (arrived(earlier, k) && k > pre.next));
            }
        }
    }
}

/// Two histories with the same chunks, in any order and with any repetition,
/// hand on the same chunks in the same order.
pub proof fn arrival_order_is_irrelevant(
    a: Seq<(u32, Seq<u8>)>,
    b: Seq<(u32, Seq<u8>)>,
    content: spec_fn(u32) -> Seq<u8>,
)
    requires
        faithful(a, content),
        faithful(b, content),
        forall|k: u32| arrived(a, k) == arrived(b, k),
    ensures
        LaneModel::empty().deliver(a).1 == LaneModel::empty().deliver(b).1,
        LaneModel::empty().deliver(a).0.next == LaneModel::empty().deliver(b).0.next,
{
    chunks_are_delivered_once_in_order(a, content);
    chunks_are_delivered_once_in_order(b, content);
    let m = LaneModel::empty().deliver(a).0.next;
    let n = LaneModel::empty().deliver(b).0.next;
    if m < n {
        assert(arrived(b, m as u32));
    }
    if n < m {
        assert(arrived(a, n as u32));
    }
}

/// When exactly the chunks below `n` have arrived, all of them have been
/// handed on.
pub proof fn complete_arrivals_are_all_delivered(
    arrivals: Seq<(u32, Seq<u8>)>,
    content: spec_fn(u32) -> Seq<u8>,
    n: nat,
)
    requires
        faithful(arrivals, content),
        n <= u32::MAX,
        forall|k: u32| arrived(arrivals, k) == (k < n),
    ensures
        LaneModel::empty().deliver(arrivals).1 == in_order(content, n),
{
    chunks_are_delivered_once_in_order(arrivals, content);
    let next = LaneModel::empty().deliver(arrivals).0.next;
    if next < n {
        assert(arrived(arrivals, next as u32));
    }
    if n < next {
        assert(arrived(arrivals, n as u32));
    }
}

/// Ordered maps are specified for `u32` keys.
spec fn ordered_keys() -> bool {
    vstd::laws_cmp::obeys_cmp::<u32>()
}

proof fn u32_keys_are_ordered()
    ensures
        ordered_keys(),
{
    broadcast use vstd::laws_cmp::group_laws_cmp;

}

/// The content of held-back chunks.
pub open spec fn contents(held: Map<u32, Vec<u8>>) -> Map<u32, Seq<u8>> {
    held.map_values(|v: Vec<u8>| v@)
}

/// One speaker's lane.
pub struct Lane {
    next: u64,
    pending: BTreeMap<u32, Vec<u8>>,
}

impl View for Lane {
    type V = LaneModel;

    closed spec fn view(&self) -> LaneModel {
        LaneModel { next: self.next as nat, pending: contents(self.pending@) }
    }
}

impl Lane {
    /// The lane of a speaker of whom nothing has arrived.
    pub fn new() -> (lane: Lane)
        ensures
            lane@ == LaneModel::empty(),
            lane@.wf(),
    {
        let lane = Lane { next: 0, pending: BTreeMap::new() };
        assert(lane@.pending =~= Map::<u32, Seq<u8>>::empty());
        lane
    }

    /// Chunk `seq` has been handed on.
    pub fn has_seen(&self, seq: u32) -> (b: bool)
        ensures
            b == self@.seen(seq),
            b <==> seq < self@.next,
    {
        (seq as u64) < self.next
    }

    /// Take in chunk `seq` and return the chunks that are ready now.
    pub fn accept(&mut self, seq: u32, raw: Vec<u8>) -> (ready: Vec<FeedChunk>)
        requires
            old(self)@.wf(),
        ensures
            final(self)@ == old(self)@.arrive(seq, raw@).0,
            fed(ready@) == old(self)@.arrive(seq, raw@).1,
            final(self)@.wf(),
    {
        proof {
            u32_keys_are_ordered();
            arrive_keeps_lane(self@, seq, raw@);
        }
        let mut ready: Vec<FeedChunk> = Vec::new();
        if self.has_seen(seq) {
            assert(fed(ready@) =~= Seq::empty());
            return ready;
        }
        let ghost held = self@.pending.insert(seq, raw@);
        let ghost first = self@.next;
        if seq as u64 != self.next {
            self.pending.insert(seq, raw);
            assert(contents(self.pending@) =~= held);
            assert(fed(ready@) =~= Seq::empty());
            return ready;
        }
        ready.push(FeedChunk { seq, samples: decode_stereo_to_mono_i16(raw.as_slice()) });
        self.next = seq as u64 + 1;
        proof {
            run_end_is_first_gap(held, first);
            assert(fed(ready@) =~= run_chunks(held, first, first + 1));
            assert(contents(self.pending@) =~= held.restrict(Set::new(|k: u32| k >= first + 1)));
        }
        while self.next <= 0xffff_ffff
            invariant
                ordered_keys(),
                first < self.next <= u32::MAX + 1,
                run_end(held, first) == run_end(held, self.next as nat),
                fed(ready@) == run_chunks(held, first, self.next as nat),
                contents(self.pending@) == held.restrict(
                    Set::new(|k: u32| k >= self.next),
                ),
            ensures
                run_end(held, first) == self.next,
                fed(ready@) == run_chunks(held, first, self.next as nat),
                contents(self.pending@) == held.restrict(
                    Set::new(|k: u32| k >= self.next),
                ),
            decreases u32::MAX + 1 - self.next,
        {
            let at: u32 = self.next as u32;
            let ghost pre = self.pending@;
            let ghost pre_ready = ready@;
            match self.pending.remove(&at) {
                Some(buffered) => {
                    proof {
                        assert(contents(pre).contains_key(at));
                        assert(contents(pre)[at] == buffered@);
                        assert(held.contains_key(at) && held[at] == buffered@);
                    }
                    ready.push(
                        FeedChunk {
                            seq: at,
                            samples: decode_stereo_to_mono_i16(buffered.as_slice()),
                        },
                    );
                    self.next = self.next + 1;
                    proof {
                        assert(fed(ready@) =~= fed(pre_ready).push((at, mono(buffered@))));
                        assert(fed(ready@) =~= run_chunks(held, first, self.next as nat));
                        let rest = held.restrict(Set::new(|k: u32| k >= self.next));
                        assert(self.pending@ == pre.remove(at));
                        assert forall|k: u32|
                            #[trigger] contents(self.pending@).contains_key(k)
                                == rest.contains_key(k) by {
                            assert(contents(pre).contains_key(k) == pre.contains_key(k));
                        }
                        assert forall|k: u32| #[trigger] rest.contains_key(k) implies contents(
                            self.pending@,
                        )[k] == rest[k] by {
                            assert(contents(pre).contains_key(k));
                            assert(contents(pre)[k] == pre[k]@);
                        }
                        assert(contents(self.pending@) =~= rest);
                    }
                },
                None => {
                    proof {
                        assert(!contents(pre).contains_key(at));
                        assert(!held.contains_key(at));
                        assert(self.pending@ =~= pre);
                    }
                    break;
                },
            }
        }
        ready
    }
}

/// The lanes of all speakers of a session. A speaker of whom nothing has
/// arrived has an empty lane.
pub struct Lanes {
    entries: Vec<(PseudoId, Lane)>,
}

impl Lanes {
    spec fn stands_at(self, pseudo: Seq<char>, i: int) -> bool {
        0 <= i < self.entries@.len() && self.entries@[i].0@ == pseudo
    }

    /// The speaker's lane.
    pub closed spec fn lane(self, pseudo: Seq<char>) -> LaneModel {
        if exists|i: int| self.stands_at(pseudo, i) {
            self.entries@[choose|i: int| self.stands_at(pseudo, i)].1@
        } else {
            LaneModel::empty()
        }
    }

    /// Each speaker has one lane, and every lane is well formed.
    pub closed spec fn wf(self) -> bool {
        &&& forall|i: int, j: int|
            0 <= i < j < self.entries@.len() ==> (#[trigger] self.entries@[i]).0@ != (
            #[trigger] self.entries@[j]).0@
        &&& forall|i: int| 0 <= i < self.entries@.len() ==> (#[trigger] self.entries@[i]).1@.wf()
    }

    proof fn lane_stands_at(self, i: int)
        requires
            self.wf(),
            0 <= i < self.entries@.len(),
        ensures
            self.lane(self.entries@[i].0@) == self.entries@[i].1@,
    {
        let pseudo = self.entries@[i].0@;
        assert(self.stands_at(pseudo, i));
        let j = choose|j: int| self.stands_at(pseudo, j);
        assert(self.stands_at(pseudo, j));
        assert(i == j);
    }

    pub fn new() -> (lanes: Lanes)
        ensures
            lanes.wf(),
            forall|p: Seq<char>| #[trigger] lanes.lane(p) == LaneModel::empty(),
    {
        let lanes = Lanes { entries: Vec::new() };
        assert forall|p: Seq<char>| #[trigger] lanes.lane(p) == LaneModel::empty() by {
            assert(forall|i: int| !lanes.stands_at(p, i));
        }
        lanes
    }

    fn position(&self, pseudo: &PseudoId) -> (found: Option<usize>)
        ensures
            match found {
                Some(i) => self.stands_at(pseudo@, i as int),
                None => forall|i: int| !self.stands_at(pseudo@, i),
            },
    {
        let mut i: usize = 0;
        while i < self.entries.len()
            invariant
                i <= self.entries.len(),
                forall|j: int| 0 <= j < i ==> !self.stands_at(pseudo@, j),
            decreases self.entries.len() - i,
        {
            if self.entries[i].0 == *pseudo {
                return Some(i);
            }
            i = i + 1;
        }
        None
    }

    /// The speaker's chunk `seq` has been handed on.
    pub fn has_seen(&self, pseudo: &PseudoId, seq: ChunkSeq) -> (b: bool)
        requires
            self.wf(),
        ensures
            b == self.lane(pseudo@).seen(seq.0),
            b <==> seq.0 < self.lane(pseudo@).next,
    {
        match self.position(pseudo) {
            Some(i) => {
                proof {
                    self.lane_stands_at(i as int);
                }
                self.entries[i].1.has_seen(seq.0)
            },
            None => false,
        }
    }

    /// Take in the speaker's chunk `seq` and return the chunks of that speaker
    /// that are ready now. The other speakers' lanes stay as they are.
    pub fn accept(&mut self, pseudo: &PseudoId, seq: ChunkSeq, raw: Vec<u8>) -> (ready: Vec<
        FeedChunk,
    >)
        requires
            old(self).wf(),
        ensures
            final(self).wf(),
            final(self).lane(pseudo@) == old(self).lane(pseudo@).arrive(seq.0, raw@).0,
            fed(ready@) == old(self).lane(pseudo@).arrive(seq.0, raw@).1,
            forall|q: Seq<char>|
                q != pseudo@ ==> #[trigger] final(self).lane(q) == old(self).lane(q),
    {
        let ghost before = *self;
        let found = self.position(pseudo);
        let at: usize = match found {
            Some(i) => i,
            None => {
                self.entries.push((pseudo.clone(), Lane::new()));
                self.entries.len() - 1
            },
        };
        let ghost middle = *self;
        proof {
            assert(middle.wf()) by {
                assert forall|i: int, j: int| 0 <= i < j < middle.entries@.len() implies (
                #[trigger] middle.entries@[i]).0@ != (#[trigger] middle.entries@[j]).0@ by {
                    assert(!(found is None) || !before.stands_at(pseudo@, i));
                }
            }
            middle.lane_stands_at(at as int);
            Self::lanes_kept(before, middle, pseudo@);
            if found is Some {
                before.lane_stands_at(at as int);
            }
        }
        let ready = self.entries[at].1.accept(seq.0, raw);
        proof {
            assert(self.entries@.len() == middle.entries@.len());
            assert forall|i: int| 0 <= i < self.entries@.len() implies (
            #[trigger] self.entries@[i]).0@ == middle.entries@[i].0@ && (i != at
                ==> self.entries@[i] == middle.entries@[i]) by {}
            self.lane_stands_at(at as int);
            Self::lanes_kept(middle, *self, pseudo@);
        }
        ready
    }

    proof fn lanes_kept(pre: Lanes, post: Lanes, pseudo: Seq<char>)
        requires
            pre.wf(),
            post.wf(),
            pre.entries@.len() <= post.entries@.len() <= pre.entries@.len() + 1,
            forall|i: int|
                0 <= i < pre.entries@.len() ==> pre.entries@[i].0@ == (
                #[trigger] post.entries@[i]).0@ && (pre.entries@[i].0@ != pseudo
                    ==> pre.entries@[i] == post.entries@[i]),
            pre.entries@.len() < post.entries@.len() ==> post.entries@.last().0@ == pseudo,
        ensures
            forall|q: Seq<char>| q != pseudo ==> #[trigger] post.lane(q) == pre.lane(q),
    {
        assert forall|q: Seq<char>| q != pseudo implies #[trigger] post.lane(q) == pre.lane(q) by {
            if exists|i: int| pre.stands_at(q, i) {
                let i = choose|i: int| pre.stands_at(q, i);
                pre.lane_stands_at(i);
                assert(post.entries@[i].0@ == q);
                post.lane_stands_at(i);
            } else {
                assert forall|i: int| !post.stands_at(q, i) by {
                    if post.stands_at(q, i) && i < pre.entries@.len() {
                        assert(pre.stands_at(q, i));
                    }
                }
            }
        }
    }
}

/// The samples of a list of chunks, end to end.
pub open spec fn samples_of(chunks: Seq<(u32, Seq<i16>)>) -> Seq<i16>
    decreases chunks.len(),
{
    if chunks.len() == 0 {
        Seq::empty()
    } else {
        samples_of(chunks.drop_last()) + chunks.last().1
    }
}

/// Leaving out the inaudible chunks loses no sample, and keeps every chunk that
/// has one.
pub proof fn no_sample_is_left_out(chunks: Seq<(u32, Seq<i16>)>)
    ensures
        ({
            let kept = chunks.filter(|c: (u32, Seq<i16>)| is_audible(c));
            &&& samples_of(kept) == samples_of(chunks)
            &&& forall|i: int|
                0 <= i < chunks.len() && (#[trigger] chunks[i]).1.len() > 0 ==> kept.contains(
                    chunks[i],
                )
            &&& forall|i: int| 0 <= i < kept.len() ==> (#[trigger] kept[i]).1.len() > 0
        }),
    decreases chunks.len(),
{
    broadcast use vstd::seq_lib::group_filter_ensures;

    let pred = |c: (u32, Seq<i16>)| is_audible(c);
    let kept = chunks.filter(pred);
    if chunks.len() > 0 {
        no_sample_is_left_out(chunks.drop_last());
        let front = chunks.drop_last().filter(pred);
        let last = chunks.last();
        assert(kept == if pred(last) {
            front.push(last)
        } else {
            front
        }) by {
            reveal(Seq::filter);
        }
        if pred(last) {
            assert(kept.drop_last() =~= front);
            assert(samples_of(kept) == samples_of(front) + last.1);
        } else {
            assert(samples_of(chunks) =~= samples_of(chunks.drop_last()));
        }
    } else {
        assert(kept =~= Seq::empty()) by {
            reveal(Seq::filter);
        }
    }
    assert forall|i: int| 0 <= i < chunks.len() && (#[trigger] chunks[i]).1.len() > 0 implies
        kept.contains(chunks[i]) by {
        assert(pred(chunks[i]));
    }
    assert forall|i: int| 0 <= i < kept.len() implies (#[trigger] kept[i]).1.len() > 0 by {
        assert(pred(kept[i]));
    }
}

/// A chunk that holds at least one sample.
pub open spec fn is_audible(chunk: (u32, Seq<i16>)) -> bool {
    chunk.1.len() > 0
}

/// The chunks that hold samples, in order. A chunk without samples is never
/// given to the pipeline.
pub fn audible(chunks: Vec<FeedChunk>) -> (kept: Vec<FeedChunk>)
    ensures
        fed(kept@) == fed(chunks@).filter(|c: (u32, Seq<i16>)| is_audible(c)),
        samples_of(fed(kept@)) == samples_of(fed(chunks@)),
        forall|i: int|
            0 <= i < chunks@.len() && (#[trigger] chunks@[i]).samples@.len() > 0 ==> fed(
                kept@,
            ).contains((chunks@[i].seq, chunks@[i].samples@)),
        forall|i: int| 0 <= i < kept@.len() ==> (#[trigger] kept@[i]).samples@.len() > 0,
{
    let mut kept: Vec<FeedChunk> = Vec::new();
    let ghost all = fed(chunks@);
    let ghost pred = |c: (u32, Seq<i16>)| is_audible(c);
    assert(fed(kept@) =~= all.take(0).filter(pred)) by {
        reveal(Seq::filter);
    }
    for c in it: chunks.into_iter()
        invariant
            all == fed(it.seq()),
            pred == (|c: (u32, Seq<i16>)| is_audible(c)),
            fed(kept@) == all.take(it.index() as int).filter(pred),
    {
        let ghost before = kept@;
        let ghost n = it.index() as int;
        proof {
            assert(it.seq()[n] == c);
            assert(all.take(n + 1).drop_last() =~= all.take(n));
            assert(all.take(n + 1).last() == c@);
            reveal(Seq::filter);
        }
        if c.samples.len() > 0 {
            kept.push(c);
            assert(fed(kept@) =~= fed(before).push(c@));
        }
    }
    assert(all.take(all.len() as int) =~= all);
    proof {
        no_sample_is_left_out(all);
        assert forall|i: int|
            0 <= i < chunks@.len() && (
            #[trigger] chunks@[i]).samples@.len() > 0 implies fed(kept@).contains(
            (chunks@[i].seq, chunks@[i].samples@),
        ) by {
            assert(all[i] == chunks@[i]@);
        }
        assert forall|i: int| 0 <= i < kept@.len() implies (#[trigger] kept@[i]).samples@.len()
            > 0 by {
            assert(fed(kept@)[i] == kept@[i]@);
        }
    }
    kept
}

} // verus!
