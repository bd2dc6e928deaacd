//! The worker's event loop.
//!
//! Events come from the bus, from a periodic look at the data-api, from the
//! retry queue, from the admin surface and from runners that have ended. The
//! loop decides which runner is started and which is told what; starting and
//! telling is left to the caller. `H` stands for the caller's hold on a running
//! runner.

use std::collections::HashMap;

use vstd::prelude::*;

use crate::admin::StatusSnapshot;
use crate::api_client::SessionSummary;
use crate::error::WorkerError;
use crate::ids::SessionId;
use crate::retry::{backoff_of, RetryEntry, RetryModel, RetryQueue};
use crate::session_runner::{RunnerCmd, RunnerMode};
use crate::time::{Duration, Instant};
use crate::ws::BusEvent;

verus! {

broadcast use vstd::std_specs::hash::group_hash_axioms;

/// A runner to be started.
#[derive(Clone, Copy, Debug, PartialEq, Eq, Structural)]
pub struct Spawn {
    pub session: SessionId,
    /// The number of the run, counted from one.
    pub attempt: u32,
    pub mode: RunnerMode,
}

/// The first one-shot run of a session.
pub open spec fn one_shot(session: SessionId) -> Spawn {
    Spawn { session, attempt: 1, mode: RunnerMode::OneShot }
}

fn first_run(session: SessionId, mode: RunnerMode) -> (s: Spawn)
    ensures
        s == (Spawn { session, attempt: 1, mode }),
{
    Spawn { session, attempt: 1, mode }
}

/// What to do about an event of the bus.
pub enum BusAction {
    Nothing,
    /// Start a runner.
    Start(Spawn),
    /// Tell the session's runner. Where the runner is gone, start `fallback`.
    Tell { session: SessionId, cmd: RunnerCmd, fallback: Option<Spawn> },
    /// Start a runner and tell it.
    StartAndTell { spawn: Spawn, cmd: RunnerCmd },
}

/// What follows a runner that has ended.
#[derive(Clone, Copy, Debug)]
pub enum Completion {
    /// Nothing: it went well.
    Done,
    /// Nothing: it failed in a way that another run would not mend.
    Dropped,
    /// It failed. The session is to be marked as failed, as far as possible, and
    /// another run is queued.
    Retry(RetryEntry),
    /// It failed. The session is to be marked as failed, and stays so.
    Exhausted,
}

/// The sessions in a listing; a listing that failed counts as empty.
pub open spec fn listed_sessions(listing: Result<Vec<SessionSummary>, WorkerError>) -> Seq<
    SessionId,
> {
    match listing {
        Ok(rows) => rows@.map_values(|r: SessionSummary| r.id),
        Err(_) => Seq::empty(),
    }
}

/// The first one-shot runs of sessions.
pub open spec fn one_shots(sessions: Seq<SessionId>) -> Seq<Spawn> {
    sessions.map_values(|s: SessionId| one_shot(s))
}

fn session_list(listing: Result<Vec<SessionSummary>, WorkerError>) -> (ids: Vec<SessionId>)
    ensures
        ids@ == listed_sessions(listing),
{
    let mut ids: Vec<SessionId> = Vec::new();
    match listing {
        Ok(rows) => {
            let mut i: usize = 0;
            while i < rows.len()
                invariant
                    i <= rows.len(),
                    ids@ == rows@.take(i as int).map_values(|r: SessionSummary| r.id),
                decreases rows.len() - i,
            {
                ids.push(rows[i].id);
                i = i + 1;
                assert(ids@ =~= rows@.take(i as int).map_values(|r: SessionSummary| r.id));
            }
            assert(rows@.take(rows@.len() as int) =~= rows@);
        },
        Err(_) => {},
    }
    ids
}

fn push_one_shots(list: &mut Vec<Spawn>, sessions: &Vec<SessionId>)
    ensures
        final(list)@ == old(list)@ + one_shots(sessions@),
{
    let ghost before = list@;
    let mut i: usize = 0;
    assert(list@ =~= before + one_shots(sessions@.take(0)));
    while i < sessions.len()
        invariant
            i <= sessions.len(),
            list@ == before + one_shots(sessions@.take(i as int)),
        decreases sessions.len() - i,
    {
        list.push(first_run(sessions[i], RunnerMode::OneShot));
        i = i + 1;
        assert(list@ =~= before + one_shots(sessions@.take(i as int)));
    }
    assert(sessions@.take(sessions@.len() as int) =~= sessions@);
}

/// What to start when the worker comes up: the sessions that some worker left
/// in the middle, then the sessions that are waiting.
pub fn startup_reconcile(
    transcribing: Result<Vec<SessionSummary>, WorkerError>,
    uploaded: Result<Vec<SessionSummary>, WorkerError>,
) -> (list: Vec<Spawn>)
    ensures
        list@ == one_shots(listed_sessions(transcribing) + listed_sessions(uploaded)),
        forall|i: int|
            0 <= i < list@.len() ==> (#[trigger] list@[i]).attempt == 1 && list@[i].mode
                == RunnerMode::OneShot,
        ({
            let first = if transcribing is Ok {
                transcribing->Ok_0@.len()
            } else {
                0
            };
            let second = if uploaded is Ok {
                uploaded->Ok_0@.len()
            } else {
                0
            };
            &&& list@.len() == first + second
            &&& forall|i: int|
                0 <= i < first ==> (#[trigger] list@[i]).session == transcribing->Ok_0@[i].id
            &&& forall|i: int|
                first <= i < first + second ==> (#[trigger] list@[i]).session
                    == uploaded->Ok_0@[i - first].id
        }),
{
    let mut list: Vec<Spawn> = Vec::new();
    push_one_shots(&mut list, &session_list(transcribing));
    push_one_shots(&mut list, &session_list(uploaded));
    assert(list@ =~= one_shots(listed_sessions(transcribing) + listed_sessions(uploaded)));
    list
}

/// The time between two signs of life.
pub fn heartbeat_interval() -> (d: Duration)
    ensures
        d.nanos == Duration::of_secs(30),
        d.nanos == 30_000_000_000,
{
    Duration::from_secs(30)
}

/// The run that an entry of the retry queue stands for: the one behind the run
/// that failed.
pub open spec fn rerun_of(entry: RetryEntry) -> Spawn {
    Spawn {
        session: entry.session,
        attempt: (entry.attempt + 1) as u32,
        mode: RunnerMode::OneShot,
    }
}

/// The run that follows when a retry is due.
pub fn handle_retry(entry: RetryEntry) -> (s: Spawn)
    requires
        entry.attempt < u32::MAX,
    ensures
        s == rerun_of(entry),
        s.session == entry.session,
        s.attempt == entry.attempt + 1,
        s.mode == RunnerMode::OneShot,
{
    Spawn { session: entry.session, attempt: entry.attempt + 1, mode: RunnerMode::OneShot }
}

/// What follows a failed run: the wait, and the number of the run behind it.
pub open spec fn follow_up(schedule: Seq<nat>, attempt: nat) -> Option<(nat, nat)> {
    match backoff_of(schedule, attempt) {
        Some(delay) => Some((delay, attempt + 1)),
        None => None,
    }
}

/// The waits between the runs of a session that fails every time, from run
/// number `attempt` on.
pub open spec fn waits_between_runs(schedule: Seq<nat>, attempt: nat) -> Seq<nat>
    decreases schedule.len() + 1 - attempt,
{
    match follow_up(schedule, attempt) {
        Some((delay, next)) => seq![delay] + waits_between_runs(schedule, next),
        None => Seq::empty(),
    }
}

proof fn waits_from(schedule: Seq<nat>, attempt: nat)
    requires
        1 <= attempt <= schedule.len() + 1,
    ensures
        waits_between_runs(schedule, attempt) == schedule.skip(attempt - 1),
    decreases schedule.len() + 1 - attempt,
{
    if attempt <= schedule.len() {
        waits_from(schedule, attempt + 1);
        assert(schedule.skip(attempt - 1) =~= seq![schedule[attempt - 1]] + schedule.skip(
            attempt as int,
        ));
    } else {
        assert(schedule.skip(attempt - 1) =~= Seq::empty());
    }
}

/// A session that fails every time is run once more for each backoff of the
/// schedule, in the schedule's order, and then left alone.
pub proof fn every_backoff_is_used_once(schedule: Seq<nat>)
    ensures
        waits_between_runs(schedule, 1) == schedule,
{
    waits_from(schedule, 1);
    assert(schedule.skip(0) =~= schedule);
}

/// What a failed run leaves in the queue is what follows it: when the entry is
/// due, and which run it brings. Where nothing follows, nothing is queued.
pub proof fn failed_runs_are_followed_up<H>(
    pre: LoopModel<H>,
    post: LoopModel<H>,
    run: Spawn,
    now: Instant,
    e: WorkerError,
    c: Completion,
)
    requires
        run.attempt < u32::MAX,
        e.retryable(),
        pre.completes(run.session, run.attempt, now, Err(e), post, c),
    ensures
        match follow_up(pre.retry.schedule, run.attempt as nat) {
            Some((delay, next)) => c matches Completion::Retry(entry) && {
                &&& post.retry.pending == pre.retry.pending.insert(entry)
                &&& entry.due_at.nanos == now.nanos + delay
                &&& rerun_of(entry).session == run.session
                &&& rerun_of(entry).attempt == next
            },
            None => c is Exhausted && post.retry == pre.retry,
        },
{
}

/// The loop's state: the runners by session, and the retry queue.
#[verifier::ext_equal]
pub struct LoopModel<H> {
    pub active: Map<u128, H>,
    pub retry: RetryModel,
}

impl<H> LoopModel<H> {
    pub open spec fn is_active(self, session: SessionId) -> bool {
        self.active.contains_key(session.0)
    }

    /// The end of the session's run number `attempt` leads to `post` and to `c`.
    ///
    /// The runner is no longer kept. A failure that another run may mend puts
    /// the session into the retry queue with the backoff of the run that failed;
    /// every other outcome leaves the queue as it is.
    pub open spec fn completes(
        self,
        session: SessionId,
        attempt: u32,
        now: Instant,
        outcome: Result<(), WorkerError>,
        post: LoopModel<H>,
        c: Completion,
    ) -> bool {
        &&& post.active == self.active.remove(session.0)
        &&& match outcome {
            Ok(_) => c is Done && post.retry == self.retry,
            Err(e) => if !e.retryable() {
                c is Dropped && post.retry == self.retry
            } else {
                match backoff_of(self.retry.schedule, attempt as nat) {
                    Some(delay) => {
                        let entry = RetryEntry {
                            session,
                            attempt,
                            due_at: Instant { nanos: (now.nanos + delay) as u128 },
                        };
                        &&& c == Completion::Retry(entry)
                        &&& post.retry == (RetryModel {
                            pending: self.retry.pending.insert(entry),
                            ..self.retry
                        })
                        &&& entry.due_at.nanos == now.nanos + delay
                    },
                    None => c is Exhausted && post.retry == self.retry,
                }
            },
        }
    }
}

/// A look at the uploaded sessions starts exactly those that are not being run.
pub proof fn poll_starts_the_idle_sessions<H>(
    state: LoopModel<H>,
    uploaded: Seq<SessionId>,
    session: SessionId,
)
    ensures
        one_shots(uploaded.filter(|s: SessionId| !state.is_active(s))).contains(one_shot(session))
            <==> uploaded.contains(session) && !state.is_active(session),
{
    let pred = |s: SessionId| !state.is_active(s);
    let idle = uploaded.filter(pred);
    broadcast use vstd::seq_lib::group_filter_ensures;

    let starts = one_shots(idle);
    if uploaded.contains(session) && !state.is_active(session) {
        let i = choose|i: int| 0 <= i < uploaded.len() && uploaded[i] == session;
        assert(pred(uploaded[i]));
        assert(idle.contains(session));
        let k = choose|k: int| 0 <= k < idle.len() && idle[k] == session;
        assert(starts[k] == one_shot(session));
    }
    if starts.contains(one_shot(session)) {
        let k = choose|k: int| 0 <= k < starts.len() && starts[k] == one_shot(session);
        assert(starts[k] == one_shot(idle[k]));
        assert(idle[k] == session);
        assert(pred(idle[k]));
        uploaded.lemma_filter_contains_rev(pred, session);
    }
}

/// The event loop.
pub struct EventLoop<H> {
    active: HashMap<u128, H>,
    retry: RetryQueue,
}

impl<H> View for EventLoop<H> {
    type V = LoopModel<H>;

    closed spec fn view(&self) -> LoopModel<H> {
        LoopModel { active: self.active@, retry: self.retry@ }
    }
}

impl<H> EventLoop<H> {
    /// A loop without runners.
    pub fn new(retry: RetryQueue) -> (l: EventLoop<H>)
        ensures
            l@.active == Map::<u128, H>::empty(),
            l@.retry == retry@,
    {
        EventLoop { active: HashMap::new(), retry }
    }

    /// What to start after a look at the uploaded sessions: those that are not
    /// being run.
    pub fn poll_reconcile(&self, uploaded: Result<Vec<SessionSummary>, WorkerError>) -> (list: Vec<
        Spawn,
    >)
        ensures
            list@ == one_shots(
                listed_sessions(uploaded).filter(|s: SessionId| !self@.is_active(s)),
            ),
            uploaded is Err ==> list@.len() == 0,
            forall|i: int|
                0 <= i < list@.len() ==> (#[trigger] list@[i]).attempt == 1 && list@[i].mode
                    == RunnerMode::OneShot && !self@.active.contains_key(list@[i].session.0),
            uploaded matches Ok(rows) ==> forall|i: int|
                0 <= i < rows@.len() && !self@.active.contains_key((#[trigger] rows@[i]).id.0)
                    ==> list@.contains(
                    Spawn { session: rows@[i].id, attempt: 1, mode: RunnerMode::OneShot },
                ),
    {
        let ghost listing = uploaded;
        let ids = session_list(uploaded);
        let ghost all = ids@;
        let ghost pred = |s: SessionId| !self@.is_active(s);
        let mut idle: Vec<SessionId> = Vec::new();
        assert(idle@ =~= all.take(0).filter(pred)) by {
            reveal(Seq::filter);
        }
        let mut i: usize = 0;
        while i < ids.len()
            invariant
                i <= ids.len(),
                all == ids@,
                pred == (|s: SessionId| !self@.is_active(s)),
                idle@ == all.take(i as int).filter(pred),
            decreases ids.len() - i,
        {
            proof {
                assert(all.take(i + 1).drop_last() =~= all.take(i as int));
                assert(all.take(i + 1).last() == all[i as int]);
                reveal(Seq::filter);
            }
            if !self.active.contains_key(&ids[i].0) {
                idle.push(ids[i]);
            }
            i = i + 1;
        }
        assert(all.take(all.len() as int) =~= all);
        let mut list: Vec<Spawn> = Vec::new();
        push_one_shots(&mut list, &idle);
        assert(list@ =~= one_shots(idle@));
        proof {
            broadcast use vstd::seq_lib::group_filter_ensures;

            assert forall|i: int| 0 <= i < list@.len() implies !self@.active.contains_key(
                (#[trigger] list@[i]).session.0,
            ) by {
                assert(pred(idle@[i]));
            }
            assert forall|i: int|
                0 <= i < all.len() && !self@.active.contains_key(
                    (#[trigger] all[i]).0,
                ) implies list@.contains(one_shot(all[i])) by {
                assert(pred(all[i]));
                assert(idle@.contains(all[i]));
                let k = choose|k: int| 0 <= k < idle@.len() && idle@[k] == all[i];
                assert(list@[k] == one_shot(all[i]));
            }
            if let Ok(rows) = listing {
                assert forall|i: int|
                    0 <= i < rows@.len() && !self@.active.contains_key(
                        (#[trigger] rows@[i]).id.0,
                    ) implies list@.contains(
                    Spawn { session: rows@[i].id, attempt: 1, mode: RunnerMode::OneShot },
                ) by {
                    assert(all[i] == rows@[i].id);
                }
            }
        }
        list
    }

    /// What to do about an event of the bus.
    ///
    /// The runner of an uploaded session is told to finalize; without a runner
    /// the session is run from its stored audio. A chunk goes to the session's
    /// runner, which is started if need be; a chunk that a runner no longer
    /// takes is dropped.
    pub fn handle_ws_event(&self, event: BusEvent) -> (action: BusAction)
        ensures
            match event {
                BusEvent::SessionUploaded(session) => if self@.is_active(session) {
                    action == (BusAction::Tell {
                        session,
                        cmd: RunnerCmd::Finalize,
                        fallback: Some(one_shot(session)),
                    })
                } else {
                    action == BusAction::Start(one_shot(session))
                },
                BusEvent::ChunkUploaded { session, pseudo, seq } => if self@.is_active(session) {
                    action == (BusAction::Tell {
                        session,
                        cmd: RunnerCmd::IngestChunk { pseudo, seq },
                        fallback: None,
                    })
                } else {
                    action == (BusAction::StartAndTell {
                        spawn: Spawn { session, attempt: 1, mode: RunnerMode::Streaming },
                        cmd: RunnerCmd::IngestChunk { pseudo, seq },
                    })
                },
                BusEvent::SessionStatus { .. } => action is Nothing,
                BusEvent::Disconnected => action is Nothing,
            },
            event matches BusEvent::SessionUploaded(uploaded) ==> {
                &&& self@.active.contains_key(uploaded.0) ==> (action matches BusAction::Tell {
                    session,
                    cmd,
                    fallback: Some(s),
                } && session == uploaded && cmd is Finalize && s == (Spawn {
                    session: uploaded,
                    attempt: 1,
                    mode: RunnerMode::OneShot,
                }))
                &&& !self@.active.contains_key(uploaded.0) ==> (action matches BusAction::Start(s)
                    && s == (Spawn { session: uploaded, attempt: 1, mode: RunnerMode::OneShot }))
            },
            event matches BusEvent::ChunkUploaded { session, pseudo, seq }
                ==> (action is StartAndTell <==> !self@.active.contains_key(session.0)) && (
            action is Tell <==> self@.active.contains_key(session.0)),
    {
        match event {
            BusEvent::SessionUploaded(session) => {
                if self.active.contains_key(&session.0) {
                    BusAction::Tell {
                        session,
                        cmd: RunnerCmd::Finalize,
                        fallback: Some(first_run(session, RunnerMode::OneShot)),
                    }
                } else {
                    BusAction::Start(first_run(session, RunnerMode::OneShot))
                }
            },
            BusEvent::ChunkUploaded { session, pseudo, seq } => {
                let cmd = RunnerCmd::IngestChunk { pseudo, seq };
                if self.active.contains_key(&session.0) {
                    BusAction::Tell { session, cmd, fallback: None }
                } else {
                    BusAction::StartAndTell {
                        spawn: first_run(session, RunnerMode::Streaming),
                        cmd,
                    }
                }
            },
            BusEvent::SessionStatus { .. } => BusAction::Nothing,
            BusEvent::Disconnected => BusAction::Nothing,
        }
    }

    /// A runner of the session was started. It takes the place of any other.
    pub fn spawn_runner(&mut self, session: SessionId, handle: H)
        ensures
            final(self)@ == (LoopModel {
                active: old(self)@.active.insert(session.0, handle),
                ..old(self)@
            }),
    {
        self.active.insert(session.0, handle);
    }

    /// The hold on the session's runner.
    pub fn runner(&self, session: SessionId) -> (h: Option<&H>)
        ensures
            match h {
                Some(h) => self@.is_active(session) && *h == self@.active[session.0],
                None => !self@.is_active(session),
            },
    {
        self.active.get(&session.0)
    }

    /// The sessions that have a runner, each once, in no particular order.
    pub fn active_sessions(&self) -> (ids: Vec<u128>)
        ensures
            ids@.no_duplicates(),
            ids@.to_set() == self@.active.dom(),
    {
        let mut ids: Vec<u128> = Vec::new();
        for k in it: self.active.keys()
            invariant
                it.seq().unref().to_set() == self@.active.dom(),
                it.seq().no_duplicates(),
                ids@ == it.seq().unref().take(it.index() as int),
                it.index() == it.seq().len() ==> ids@ == it.seq().unref(),
        {
            ids.push(*k);
            assert(ids@ =~= it.seq().unref().take(it.index() + 1));
            assert(it.index() + 1 == it.seq().len() ==> ids@ =~= it.seq().unref());
        }
        ids
    }

    /// What is being run, for the admin surface. `last_heartbeat_at` is when a
    /// heartbeat last succeeded, if one ever did.
    pub fn status<D>(&self, last_heartbeat_at: Option<D>, version: &'static str) -> (s:
        StatusSnapshot<D>)
        ensures
            s.active_sessions@.no_duplicates(),
            s.active_sessions@.to_set() == self@.active.dom(),
            s.last_heartbeat_at == last_heartbeat_at,
            s.version == version,
    {
        StatusSnapshot {
            active_sessions: self.active_sessions(),
            last_heartbeat_at,
            version,
        }
    }

    /// Begin to run a session again: its runner, if it has one, is no longer
    /// kept and must be aborted.
    pub fn begin_rerun(&mut self, session: SessionId) -> (h: Option<H>)
        ensures
            match h {
                Some(h) => old(self)@.is_active(session) && h == old(self)@.active[session.0],
                None => !old(self)@.is_active(session),
            },
            final(self)@ == (LoopModel {
                active: old(self)@.active.remove(session.0),
                ..old(self)@
            }),
    {
        let h = self.active.remove(&session.0);
        assert(self@.active =~= old(self)@.active.remove(session.0));
        h
    }

    /// Go on with a rerun once the prior outputs are cleared: what to start,
    /// and what to answer.
    pub fn finish_rerun(session: SessionId, cleared: &Result<(), WorkerError>) -> (r: (
        Option<Spawn>,
        bool,
    ))
        ensures
            cleared is Ok ==> r == (Some(one_shot(session)), true),
            cleared is Ok ==> r.0 == Some(
                Spawn { session, attempt: 1, mode: RunnerMode::OneShot },
            ),
            cleared is Err ==> r == (None::<Spawn>, false),
    {
        match cleared {
            Ok(_) => (Some(first_run(session, RunnerMode::OneShot)), true),
            Err(_) => (None, false),
        }
    }

    /// Run number `attempt` of the session has ended.
    pub fn on_runner_complete(
        &mut self,
        session: SessionId,
        attempt: u32,
        now: Instant,
        outcome: &Result<(), WorkerError>,
    ) -> (c: Completion)
        requires
            outcome matches Err(e) ==> e.retryable() ==> {
                &&& old(self)@.retry.schedule.len() > 0 ==> attempt >= 1
                &&& backoff_of(old(self)@.retry.schedule, attempt as nat) matches Some(d)
                    ==> now.nanos + d <= u128::MAX
            },
        ensures
            old(self)@.completes(session, attempt, now, *outcome, final(self)@, c),
            final(self)@.active == old(self)@.active.remove(session.0),
            c is Done <==> outcome is Ok,
            c is Dropped <==> (outcome matches Err(e) && (e is ClaimLost || e is NotFound
                || e is Admin || e is Config)),
            c is Retry <==> (outcome matches Err(e) && (e is Api || e is Pipeline || e is WebSocket)
                && 1 <= attempt <= old(self)@.retry.schedule.len()),
            c matches Completion::Retry(entry) ==> {
                &&& entry.session == session
                &&& entry.attempt == attempt
                &&& entry.due_at.nanos == now.nanos + old(self)@.retry.schedule[attempt - 1]
                &&& final(self)@.retry.pending == old(self)@.retry.pending.insert(entry)
            },
            !(c is Retry) ==> final(self)@.retry == old(self)@.retry,
            final(self)@.retry.schedule == old(self)@.retry.schedule,
    {
        let _ = self.active.remove(&session.0);
        assert(self@.active =~= old(self)@.active.remove(session.0));
        match outcome {
            Ok(_) => Completion::Done,
            Err(e) => {
                if !e.is_retryable_session_failure() {
                    return Completion::Dropped;
                }
                match self.retry.schedule(session, attempt, now) {
                    Some(entry) => Completion::Retry(entry),
                    None => Completion::Exhausted,
                }
            },
        }
    }

    /// How long to wait until a retry may be due.
    pub fn retry_sleep(&self, now: Instant) -> (d: Duration)
        ensures
            self@.retry.waits(now, d.nanos as nat),
            self@.retry.pending.len() == 0 ==> d.nanos == 86_400_000_000_000,
            forall|e: RetryEntry| #[trigger]
                self@.retry.pending.contains(e) && now.nanos <= e.due_at.nanos ==> d.nanos
                    <= e.due_at.nanos - now.nanos,
            forall|e: RetryEntry| #[trigger]
                self@.retry.pending.contains(e) && e.due_at.nanos <= now.nanos ==> d.nanos == 0,
            self@.retry.pending.len() > 0 ==> exists|e: RetryEntry| #[trigger]
                self@.retry.pending.contains(e) && (d.nanos == e.due_at.nanos - now.nanos || (
                d.nanos == 0 && e.due_at.nanos <= now.nanos)),
    {
        self.retry.sleep_for(now)
    }

    /// Take out a retry that is due.
    pub fn next_retry(&mut self, now: Instant) -> (r: Option<RetryEntry>)
        ensures
            final(self)@.active == old(self)@.active,
            old(self)@.retry.takes(now, r, final(self)@.retry),
            r is None <==> forall|x: RetryEntry| #[trigger]
                old(self)@.retry.pending.contains(x) ==> x.due_at.nanos > now.nanos,
            r is None ==> final(self)@.retry == old(self)@.retry,
            r matches Some(e) ==> {
                &&& old(self)@.retry.pending.contains(e)
                &&& e.due_at.nanos <= now.nanos
                &&& forall|x: RetryEntry| #[trigger]
                    old(self)@.retry.pending.contains(x) ==> e.due_at.nanos <= x.due_at.nanos
                &&& final(self)@.retry.pending == old(self)@.retry.pending.remove(e)
                &&& final(self)@.retry.schedule == old(self)@.retry.schedule
            },
    {
        self.retry.next_ready(now)
    }
}

} // verus!
