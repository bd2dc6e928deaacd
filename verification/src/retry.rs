//! Queue of sessions that wait to be run again.
//!
//! A session whose run failed waits for the backoff of that run, and is then
//! run again. Runs beyond the end of the schedule are not repeated.

use std::cmp::Ordering;

use vstd::multiset::Multiset;
use vstd::prelude::*;
use vstd::std_specs::cmp::{PartialEqSpec, PartialOrdSpec};

use crate::config::lengths;
use crate::ids::SessionId;
use crate::time::{Duration, Instant};

verus! {

/// A session that waits to be run again.
#[derive(Clone, Copy, Debug, Eq)]
pub struct RetryEntry {
    pub session: SessionId,
    /// The number of the run that failed, counted from one.
    pub attempt: u32,
    pub due_at: Instant,
}

impl PartialEq for RetryEntry {
    fn eq(&self, other: &RetryEntry) -> (r: bool) {
        self.due_at.nanos == other.due_at.nanos
    }
}

impl vstd::std_specs::cmp::PartialEqSpecImpl for RetryEntry {
    open spec fn obeys_eq_spec() -> bool {
        true
    }

    open spec fn eq_spec(&self, other: &RetryEntry) -> bool {
        self.due_at.nanos == other.due_at.nanos
    }
}

/// The entry that is due first is the greatest.
impl PartialOrd for RetryEntry {
    fn partial_cmp(&self, other: &RetryEntry) -> (r: Option<Ordering>) {
        if self.due_at.nanos > other.due_at.nanos {
            Some(Ordering::Less)
        } else if self.due_at.nanos == other.due_at.nanos {
            Some(Ordering::Equal)
        } else {
            Some(Ordering::Greater)
        }
    }
}

impl vstd::std_specs::cmp::PartialOrdSpecImpl for RetryEntry {
    open spec fn obeys_partial_cmp_spec() -> bool {
        true
    }

    open spec fn partial_cmp_spec(&self, other: &RetryEntry) -> Option<Ordering> {
        if self.due_at.nanos > other.due_at.nanos {
            Some(Ordering::Less)
        } else if self.due_at.nanos == other.due_at.nanos {
            Some(Ordering::Equal)
        } else {
            Some(Ordering::Greater)
        }
    }
}

/// Of two entries, the greater is the one that is due first; entries that are
/// due together are equal, whatever else they hold.
pub proof fn the_entry_due_first_is_the_greatest(a: RetryEntry, b: RetryEntry)
    ensures
        a.partial_cmp_spec(&b) == Some(Ordering::Greater) <==> a.due_at.nanos < b.due_at.nanos,
        a.partial_cmp_spec(&b) == Some(Ordering::Less) <==> a.due_at.nanos > b.due_at.nanos,
        a.partial_cmp_spec(&b) == Some(Ordering::Equal) <==> a.due_at.nanos == b.due_at.nanos,
        a.eq_spec(&b) <==> a.due_at.nanos == b.due_at.nanos,
{
}

/// The entries of a queue, and the backoffs in nanoseconds.
#[verifier::ext_equal]
pub struct RetryModel {
    pub pending: Multiset<RetryEntry>,
    pub schedule: Seq<nat>,
}

/// The wait before a failed run is repeated; `None` when it is not. Runs are
/// counted from one.
pub open spec fn backoff_of(schedule: Seq<nat>, attempt: nat) -> Option<nat> {
    if 1 <= attempt <= schedule.len() {
        Some(schedule[attempt - 1])
    } else {
        None
    }
}

impl RetryModel {
    /// `e` is due before all other entries, or together with them.
    pub open spec fn is_first(self, e: RetryEntry) -> bool {
        &&& self.pending.contains(e)
        &&& forall|x: RetryEntry| #[trigger]
            self.pending.contains(x) ==> e.due_at.nanos <= x.due_at.nanos
    }

    /// The time from `now` until an entry may be due: none left where one is
    /// due, and a day where there is no entry.
    pub open spec fn waits(self, now: Instant, nanos: nat) -> bool {
        if self.pending.len() == 0 {
            nanos == idle_nanos()
        } else {
            exists|e: RetryEntry| #[trigger]
                self.is_first(e) && nanos == time_left(now, e.due_at)
        }
    }

    /// Taking out an entry at time `now` gives `r` and leaves `post`.
    pub open spec fn takes(self, now: Instant, r: Option<RetryEntry>, post: RetryModel) -> bool {
        match r {
            Some(e) => {
                &&& self.is_first(e)
                &&& e.due_at.nanos <= now.nanos
                &&& post == (RetryModel { pending: self.pending.remove(e), ..self })
            },
            None => {
                &&& forall|x: RetryEntry| #[trigger]
                    self.pending.contains(x) ==> x.due_at.nanos > now.nanos
                &&& post == self
            },
        }
    }
}

/// The time from `now` until `due`, none where `due` has passed.
pub open spec fn time_left(now: Instant, due: Instant) -> nat {
    if due.nanos >= now.nanos {
        (due.nanos - now.nanos) as nat
    } else {
        0
    }
}

/// Entries come out in the order in which they are due.
pub proof fn entries_come_out_in_order(
    first: RetryModel,
    second: RetryModel,
    third: RetryModel,
    now: Instant,
    later: Instant,
    a: RetryEntry,
    b: RetryEntry,
)
    requires
        first.takes(now, Some(a), second),
        second.takes(later, Some(b), third),
    ensures
        a.due_at.nanos <= b.due_at.nanos,
        third.pending.len() + 2 == first.pending.len(),
{
    assert(first.pending.contains(b));
}

/// An entry that is due stays in the queue no longer than there are entries
/// that are due before it, or together with it: as long as it is there,
/// something comes out.
pub proof fn due_entries_come_out(q: RetryModel, now: Instant, e: RetryEntry, post: RetryModel)
    requires
        q.pending.contains(e),
        e.due_at.nanos <= now.nanos,
    ensures
        !q.takes(now, None, post),
{
}

/// The queue's wait is the same whichever of several entries is taken to be
/// the first, and once it is over an entry comes out.
pub proof fn waiting_brings_an_entry(
    q: RetryModel,
    now: Instant,
    nanos: nat,
    other: nat,
    later: Instant,
)
    requires
        q.waits(now, nanos),
        q.waits(now, other),
        later.nanos >= now.nanos + nanos,
    ensures
        nanos == other,
        q.pending.len() > 0 ==> forall|post: RetryModel| !(#[trigger] q.takes(later, None, post)),
{
    if q.pending.len() > 0 {
        let e = choose|e: RetryEntry| #[trigger]
            q.is_first(e) && nanos == time_left(now, e.due_at);
        let f = choose|e: RetryEntry| #[trigger]
            q.is_first(e) && other == time_left(now, e.due_at);
        assert(q.pending.contains(e) && q.pending.contains(f));
        assert(e.due_at.nanos <= later.nanos);
    }
}

/// Queue of sessions that wait to be run again.
pub struct RetryQueue {
    entries: Vec<RetryEntry>,
    schedule: Vec<Duration>,
}

impl View for RetryQueue {
    type V = RetryModel;

    closed spec fn view(&self) -> RetryModel {
        RetryModel {
            pending: self.entries@.to_multiset(),
            schedule: lengths(self.schedule@),
        }
    }
}

/// The wait of an empty queue: a day.
pub open spec fn idle_nanos() -> nat {
    Duration::of_secs(86_400)
}

impl RetryQueue {
    pub fn new(schedule: Vec<Duration>) -> (q: RetryQueue)
        ensures
            q@.pending == Multiset::<RetryEntry>::empty(),
            q@.schedule == lengths(schedule@),
            q@.schedule.len() == schedule@.len(),
            forall|i: int|
                0 <= i < schedule@.len() ==> #[trigger] q@.schedule[i] == schedule@[i].nanos,
    {
        let entries: Vec<RetryEntry> = Vec::new();
        proof {
            entries@.to_multiset_ensures();
            assert(entries@.to_multiset() =~= Multiset::<RetryEntry>::empty());
        }
        RetryQueue { entries, schedule }
    }

    /// How many times a session is run again, in 32 bits.
    pub fn max_attempts(&self) -> (n: u32)
        ensures
            n == self@.schedule.len() as u32,
    {
        self.schedule.len() as u32
    }

    /// Queue a session whose run number `attempt` has just failed. Returns the
    /// entry, or `None` when that run is not repeated.
    pub fn schedule(&mut self, session: SessionId, attempt: u32, now: Instant) -> (r: Option<
        RetryEntry,
    >)
        requires
            old(self)@.schedule.len() > 0 ==> attempt >= 1,
            backoff_of(old(self)@.schedule, attempt as nat) matches Some(d) ==> now.nanos + d
                <= u128::MAX,
        ensures
            match backoff_of(old(self)@.schedule, attempt as nat) {
                Some(delay) => r matches Some(e) && {
                    &&& e.session == session
                    &&& e.attempt == attempt
                    &&& e.due_at.nanos == now.nanos + delay
                    &&& final(self)@ == (RetryModel {
                        pending: old(self)@.pending.insert(e),
                        ..old(self)@
                    })
                },
                None => r is None && final(self)@ == old(self)@,
            },
            r is Some <==> 1 <= attempt <= old(self)@.schedule.len(),
            r matches Some(e) ==> {
                &&& e.session == session
                &&& e.attempt == attempt
                &&& e.due_at.nanos == now.nanos + old(self)@.schedule[attempt - 1]
                &&& final(self)@.pending == old(self)@.pending.insert(e)
            },
            final(self)@.schedule == old(self)@.schedule,
    {
        let idx: usize = attempt as usize;
        if idx > self.schedule.len() || self.schedule.len() == 0 {
            return None;
        }
        let delay: Duration = self.schedule[idx - 1];
        let ghost before = self.entries@;
        assert(lengths(self.schedule@)[attempt - 1] == delay.nanos);
        let e = RetryEntry {
            session,
            attempt,
            due_at: Instant { nanos: now.nanos + delay.nanos },
        };
        self.entries.push(e);
        proof {
            before.to_multiset_ensures();
        }
        Some(e)
    }

    /// The place of an entry that is due first.
    fn first(&self) -> (found: Option<usize>)
        ensures
            match found {
                Some(i) => {
                    &&& i < self.entries@.len()
                    &&& forall|j: int|
                        0 <= j < self.entries@.len() ==> self.entries@[i as int].due_at.nanos
                            <= (#[trigger] self.entries@[j]).due_at.nanos
                },
                None => self.entries@.len() == 0,
            },
    {
        if self.entries.len() == 0 {
            return None;
        }
        let mut best: usize = 0;
        let mut i: usize = 1;
        while i < self.entries.len()
            invariant
                best < i <= self.entries@.len(),
                forall|j: int|
                    0 <= j < i ==> self.entries@[best as int].due_at.nanos <= (
                    #[trigger] self.entries@[j]).due_at.nanos,
            decreases self.entries.len() - i,
        {
            if self.entries[i].due_at.nanos < self.entries[best].due_at.nanos {
                best = i;
            }
            i = i + 1;
        }
        Some(best)
    }

    /// How long to wait until an entry may be due. An empty queue waits for a
    /// day, or until something is scheduled.
    pub fn sleep_for(&self, now: Instant) -> (d: Duration)
        ensures
            self@.waits(now, d.nanos as nat),
            self@.pending.len() == 0 ==> d.nanos == 86_400_000_000_000,
            self@.pending.len() > 0 ==> exists|e: RetryEntry| #[trigger]
                self@.pending.contains(e) && (d.nanos == e.due_at.nanos - now.nanos || (d.nanos == 0
                    && e.due_at.nanos <= now.nanos)),
            forall|e: RetryEntry| #[trigger]
                self@.pending.contains(e) && now.nanos <= e.due_at.nanos ==> d.nanos
                    <= e.due_at.nanos - now.nanos,
            forall|e: RetryEntry| #[trigger]
                self@.pending.contains(e) && e.due_at.nanos <= now.nanos ==> d.nanos == 0,
    {
        proof {
            self.entries@.to_multiset_ensures();
        }
        match self.first() {
            Some(i) => {
                proof {
                    let top = self.entries@[i as int];
                    assert(self.entries@.contains(top));
                    assert forall|x: RetryEntry| #[trigger]
                        self@.pending.contains(x) implies top.due_at.nanos <= x.due_at.nanos by {
                        assert(self.entries@.contains(x));
                    }
                    assert(self@.is_first(top));
                }
                self.entries[i].due_at.saturating_duration_since(now)
            },
            None => Duration::from_secs(86_400),
        }
    }

    /// Take out an entry that is due at time `now`, the first one first.
    pub fn next_ready(&mut self, now: Instant) -> (r: Option<RetryEntry>)
        ensures
            old(self)@.takes(now, r, final(self)@),
            r is None <==> forall|x: RetryEntry| #[trigger]
                old(self)@.pending.contains(x) ==> x.due_at.nanos > now.nanos,
            r is None ==> final(self)@ == old(self)@,
            r matches Some(e) ==> {
                &&& old(self)@.pending.contains(e)
                &&& e.due_at.nanos <= now.nanos
                &&& forall|x: RetryEntry| #[trigger]
                    old(self)@.pending.contains(x) ==> e.due_at.nanos <= x.due_at.nanos
                &&& final(self)@.pending == old(self)@.pending.remove(e)
                &&& final(self)@.schedule == old(self)@.schedule
            },
    {
        let ghost before = self.entries@;
        let ghost model = self@;
        proof {
            before.to_multiset_ensures();
        }
        match self.first() {
            Some(i) => {
                if self.entries[i].due_at.nanos <= now.nanos {
                    let e = self.entries.remove(i);
                    proof {
                        assert(before.contains(e));
                        assert forall|x: RetryEntry| #[trigger]
                            model.pending.contains(x) implies e.due_at.nanos <= x.due_at.nanos by {
                            assert(before.contains(x));
                        }
                        assert(self.entries@ =~= before.remove(i as int));
                    }
                    Some(e)
                } else {
                    proof {
                        assert forall|x: RetryEntry| #[trigger]
                            model.pending.contains(x) implies x.due_at.nanos > now.nanos by {
                            assert(before.contains(x));
                        }
                    }
                    None
                }
            },
            None => {
                proof {
                    assert forall|x: RetryEntry| #[trigger]
                        model.pending.contains(x) implies x.due_at.nanos > now.nanos by {
                        assert(before.contains(x));
                    }
                }
                None
            },
        }
    }

    pub fn len(&self) -> (n: usize)
        ensures
            n == self@.pending.len(),
    {
        proof {
            self.entries@.to_multiset_ensures();
        }
        self.entries.len()
    }

    pub fn is_empty(&self) -> (b: bool)
        ensures
            b == (self@.pending.len() == 0),
    {
        self.len() == 0
    }
}

} // verus!
