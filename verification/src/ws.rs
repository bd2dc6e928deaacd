//! Subscription to the data-api's event bus.
//!
//! The link connects, subscribes and reads frames until the connection ends,
//! then waits and connects anew. Consumers see parsed events only; frames that
//! do not parse are dropped.

use vstd::arithmetic::power2::{lemma2_to64, lemma_pow2_strictly_increases, lemma_pow2_unfold, pow2};
use vstd::prelude::*;

use crate::ids::{ChunkSeq, PseudoId, SessionId};
use crate::text::{
    before_first, contains, first_at, first_at_exists, first_at_unique, occurs_at, same_text,
    split_once,
};
use crate::time::Duration;

verus! {

/// Events that the event loop cares about.
#[derive(Clone, Debug)]
pub enum BusEvent {
    /// A session's audio is complete.
    SessionUploaded(SessionId),
    /// Any other change of a session's status.
    SessionStatus { session: SessionId, status: String },
    /// A chunk of a speaker was uploaded.
    ChunkUploaded { session: SessionId, pseudo: PseudoId, seq: ChunkSeq },
    /// The connection dropped.
    Disconnected,
}

/// An event as it stands on the wire.
#[derive(Debug)]
pub enum RawEvent {
    SessionStateChanged { session_id: u128, status: String },
    ChunkUploaded { session_id: u128, pseudo_id: String, seq: u32 },
}

impl RawEvent {
    /// The event means `event` to the event loop.
    pub open spec fn means(self, event: BusEvent) -> bool {
        match self {
            RawEvent::SessionStateChanged { session_id, status } => if status@ == "uploaded"@ {
                event == BusEvent::SessionUploaded(SessionId(session_id))
            } else {
                event == (BusEvent::SessionStatus { session: SessionId(session_id), status })
            },
            RawEvent::ChunkUploaded { session_id, pseudo_id, seq } => event == (
            BusEvent::ChunkUploaded {
                session: SessionId(session_id),
                pseudo: PseudoId(pseudo_id),
                seq: ChunkSeq(seq),
            }),
        }
    }

    /// What the event means to the event loop.
    pub fn classify(self) -> (event: BusEvent)
        ensures
            self.means(event),
            match self {
                RawEvent::SessionStateChanged { session_id, status } => if status@ == "uploaded"@ {
                    event == BusEvent::SessionUploaded(SessionId(session_id))
                } else {
                    event == (BusEvent::SessionStatus { session: SessionId(session_id), status })
                },
                RawEvent::ChunkUploaded { session_id, pseudo_id, seq } => event == (
                BusEvent::ChunkUploaded {
                    session: SessionId(session_id),
                    pseudo: PseudoId(pseudo_id),
                    seq: ChunkSeq(seq),
                }),
            },
    {
        match self {
            RawEvent::SessionStateChanged { session_id, status } => {
                if same_text(status.as_str(), "uploaded") {
                    BusEvent::SessionUploaded(SessionId(session_id))
                } else {
                    BusEvent::SessionStatus { session: SessionId(session_id), status }
                }
            },
            RawEvent::ChunkUploaded { session_id, pseudo_id, seq } => BusEvent::ChunkUploaded {
                session: SessionId(session_id),
                pseudo: PseudoId(pseudo_id),
                seq: ChunkSeq(seq),
            },
        }
    }
}

/// A URL as it may be logged: everything behind `token=` is blanked out.
pub open spec fn redacted(url: Seq<char>) -> Seq<char> {
    if contains(url, "token="@) {
        before_first(url, "token="@) + "token=REDACTED"@
    } else {
        url
    }
}

pub fn redact_token(url: &str) -> (s: String)
    ensures
        s@ == redacted(url@),
{
    match split_once(url, "token=") {
        Some((head, _)) => head.to_owned().concat("token=REDACTED"),
        None => url.to_owned(),
    }
}

/// What is logged of a URL keeps what stands before the first `token=`, and
/// nothing of what stands behind it; a URL without one is logged as it is.
pub proof fn redaction_keeps_the_head(head: Seq<char>, tail: Seq<char>)
    requires
        forall|j: int|
            0 <= j < head.len() ==> #[trigger] (head + "token="@ + tail).subrange(
                j,
                j + "token="@.len(),
            ) != "token="@,
    ensures
        redacted(head + "token="@ + tail) == head + "token=REDACTED"@,
        forall|url: Seq<char>|
            (forall|j: int|
                0 <= j <= url.len() - "token="@.len() ==> #[trigger] url.subrange(
                    j,
                    j + "token="@.len(),
                ) != "token="@) ==> #[trigger] redacted(url) == url,
{
    let key = "token="@;
    let url = head + key + tail;
    let n = head.len() as int;
    assert(url.subrange(n, n + key.len()) =~= key);
    assert(first_at(url, key, n)) by {
        assert forall|j: int| 0 <= j < n implies !occurs_at(url, key, j) by {
            assert(url.subrange(j, j + key.len()) != key);
        }
    }
    first_at_unique(url, key, n, choose|i: int| first_at(url, key, i));
    assert(occurs_at(url, key, n));
    assert(url.take(n) =~= head);
    assert forall|url: Seq<char>|
        (forall|j: int|
            0 <= j <= url.len() - key.len() ==> #[trigger] url.subrange(j, j + key.len())
                != key) implies #[trigger] redacted(url) == url by {
        assert forall|j: int| !occurs_at(url, key, j) by {
            if occurs_at(url, key, j) {
                assert(url.subrange(j, j + key.len()) != key);
            }
        }
    }
}

/// What is logged of a URL is the same whatever the token is.
pub proof fn redaction_hides_the_token(head: Seq<char>, one: Seq<char>, other: Seq<char>)
    ensures
        redacted(head + "token="@ + one) == redacted(head + "token="@ + other),
{
    let key = "token="@;
    let a = head + key + one;
    let b = head + key + other;
    assert forall|j: int| 0 <= j <= head.len() implies occurs_at(a, key, j) == occurs_at(
        b,
        key,
        j,
    ) by {
        assert(a.subrange(j, j + key.len()) =~= b.subrange(j, j + key.len()));
    }
    let n = head.len() as int;
    assert(a.subrange(n, n + key.len()) =~= key);
    assert(occurs_at(a, key, n));
    first_at_exists(a, key, n);
    let i = choose|i: int| 0 <= i <= n && first_at(a, key, i);
    assert(first_at(b, key, i)) by {
        assert forall|j: int| 0 <= j < i implies !occurs_at(b, key, j) by {
            assert(!occurs_at(a, key, j));
        }
    }
    first_at_unique(a, key, i, choose|i: int| first_at(a, key, i));
    first_at_unique(b, key, i, choose|i: int| first_at(b, key, i));
    assert(occurs_at(b, key, n));
    assert(a.take(i) =~= b.take(i));
}

/// The longest wait before a new attempt to connect, in seconds.
pub const MAX_BACKOFF_SECS: u64 = 30;

/// The wait after `failures` failed attempts in a row, in seconds: one, two,
/// four and so on, up to the maximum.
pub open spec fn backoff_secs(failures: nat) -> nat {
    if pow2(failures) < MAX_BACKOFF_SECS {
        pow2(failures)
    } else {
        MAX_BACKOFF_SECS as nat
    }
}

/// The waits between attempts to connect.
pub struct Backoff {
    secs: u64,
    failures: Ghost<nat>,
}

impl Backoff {
    pub closed spec fn wf(self) -> bool {
        self.secs == backoff_secs(self.failures@)
    }

    /// How many waits there have been since the last connection.
    pub closed spec fn failures(self) -> nat {
        self.failures@
    }

    pub fn new() -> (b: Backoff)
        ensures
            b.wf(),
            b.failures() == 0,
    {
        proof {
            lemma2_to64();
        }
        Backoff { secs: 1, failures: Ghost(0) }
    }

    /// A connection was made: the waits start over.
    pub fn reset(&mut self)
        ensures
            final(self).wf(),
            final(self).failures() == 0,
    {
        *self = Backoff::new();
    }

    /// The wait before the next attempt; the one after it is twice as long, up
    /// to the maximum.
    pub fn wait(&mut self) -> (d: Duration)
        requires
            old(self).wf(),
        ensures
            final(self).wf(),
            final(self).failures() == old(self).failures() + 1,
            d.nanos == Duration::of_secs(backoff_secs(old(self).failures())),
    {
        let d = Duration::from_secs(self.secs);
        proof {
            lemma_pow2_unfold(self.failures@ + 1);
        }
        self.secs = if self.secs * 2 < MAX_BACKOFF_SECS {
            self.secs * 2
        } else {
            MAX_BACKOFF_SECS
        };
        self.failures = Ghost((self.failures@ + 1) as nat);
        d
    }
}

/// The first wait is a second, and each is twice the one before it, up to half a
/// minute.
pub proof fn waits_double(n: nat)
    ensures
        backoff_secs(0) == 1,
        backoff_secs(n + 1) == (if 2 * backoff_secs(n) < 30 {
            2 * backoff_secs(n)
        } else {
            30
        }),
{
    lemma2_to64();
    lemma_pow2_unfold(n + 1);
    vstd::arithmetic::power2::lemma_pow2_pos(n);
}

/// The waits never shrink, and from the fifth failure on they stay at the
/// maximum.
pub proof fn waits_grow_to_the_maximum(n: nat)
    ensures
        1 <= backoff_secs(n) <= backoff_secs(n + 1) <= MAX_BACKOFF_SECS,
        n >= 5 ==> backoff_secs(n) == MAX_BACKOFF_SECS,
{
    lemma2_to64();
    lemma_pow2_unfold(n + 1);
    vstd::arithmetic::power2::lemma_pow2_pos(n);
    if n > 5 {
        lemma_pow2_strictly_increases(5, n);
    }
}

/// How an attempt to connect ended.
#[derive(Clone, Copy, Debug, PartialEq, Eq, Structural)]
pub enum Attempt {
    Connected,
    /// The peer refused the token.
    Unauthorized,
    /// It failed otherwise.
    Failed,
}

/// What a failed attempt to connect means; `code` is the HTTP status with which
/// the peer refused it, if it answered at all.
pub fn failed_attempt(code: Option<u16>) -> (a: Attempt)
    ensures
        a == (if code == Some(401u16) {
            Attempt::Unauthorized
        } else {
            Attempt::Failed
        }),
{
    match code {
        Some(401) => Attempt::Unauthorized,
        _ => Attempt::Failed,
    }
}

/// What happens on the link. `listening` says whether the consumer is still
/// there.
pub enum LinkEvent {
    /// An attempt to connect ended.
    Attempted(Attempt),
    /// The token was renewed, as far as that was possible.
    Renewed,
    /// The subscription was sent, or not.
    Subscribed { sent: bool, listening: bool },
    /// A text frame, with the event in it if it parses.
    Text(Option<RawEvent>),
    /// A frame that carries nothing for the worker.
    OtherFrame,
    /// The peer closed the connection, or it failed, or it ended.
    Ended { listening: bool },
    /// The consumer took the last event, or it is gone.
    Delivered(bool),
}

/// What is to be done on the link.
pub enum LinkAction {
    /// Authenticate anew: the next attempt is made with the new token.
    Renew,
    /// Send the subscription.
    Subscribe,
    /// Read the next frame.
    Read,
    /// Hand this event to the consumer.
    Emit(BusEvent),
    /// Tell the consumer that the connection dropped, wait, and connect.
    Reconnect(Duration),
    /// End: nobody listens any more.
    Stop,
}

/// What the link waits for.
#[derive(Clone, Copy, Debug, PartialEq, Eq, Structural)]
pub enum LinkState {
    Connecting,
    Renewing,
    Subscribing,
    Reading,
    Delivering,
    Stopped,
}

/// The message that subscribes to all session events.
pub fn subscription() -> (s: &'static str)
    ensures
        s@ == "{\"subscribe\":\"sessions\"}"@,
{
    "{\"subscribe\":\"sessions\"}"
}

/// The link to the event bus.
pub struct BusLink {
    state: LinkState,
    backoff: Backoff,
}

impl BusLink {
    pub closed spec fn wf(self) -> bool {
        self.backoff.wf()
    }

    pub closed spec fn state(self) -> LinkState {
        self.state
    }

    /// How many waits there have been since the last connection.
    pub closed spec fn failures(self) -> nat {
        self.backoff.failures()
    }

    /// The link waits for an event of this kind.
    pub open spec fn awaits(self, event: LinkEvent) -> bool {
        match self.state() {
            LinkState::Connecting => event is Attempted,
            LinkState::Renewing => event is Renewed,
            LinkState::Subscribing => event is Subscribed,
            LinkState::Reading => event is Text || event is OtherFrame || event is Ended,
            LinkState::Delivering => event is Delivered,
            LinkState::Stopped => false,
        }
    }

    /// The link waits and connects anew.
    pub open spec fn reconnects(self, post: BusLink, action: LinkAction) -> bool {
        &&& post.state() == LinkState::Connecting
        &&& post.failures() == self.failures() + 1
        &&& action matches LinkAction::Reconnect(d) && d.nanos == Duration::of_secs(
            backoff_secs(self.failures()),
        )
    }

    /// The link moves on without a wait.
    pub open spec fn moves(self, post: BusLink, state: LinkState) -> bool {
        post.state() == state && post.failures() == self.failures()
    }

    /// A connection is over: without a consumer the link ends, otherwise it
    /// connects anew.
    pub open spec fn gives_up(self, post: BusLink, action: LinkAction, listening: bool) -> bool {
        if listening {
            self.reconnects(post, action)
        } else {
            action is Stop && self.moves(post, LinkState::Stopped)
        }
    }

    /// A link that is about to connect for the first time.
    pub fn new() -> (link: BusLink)
        ensures
            link.wf(),
            link.state() == LinkState::Connecting,
            link.failures() == 0,
    {
        BusLink { state: LinkState::Connecting, backoff: Backoff::new() }
    }

    fn reconnect(&mut self) -> (a: LinkAction)
        requires
            old(self).wf(),
        ensures
            final(self).wf(),
            old(self).reconnects(*final(self), a),
    {
        self.state = LinkState::Connecting;
        LinkAction::Reconnect(self.backoff.wait())
    }

    fn give_up(&mut self, listening: bool) -> (a: LinkAction)
        requires
            old(self).wf(),
        ensures
            final(self).wf(),
            old(self).gives_up(*final(self), a, listening),
    {
        if listening {
            self.reconnect()
        } else {
            self.state = LinkState::Stopped;
            LinkAction::Stop
        }
    }

    /// Take in what happened and say what is to be done.
    ///
    /// Where the peer refused the token, it is renewed before the next attempt.
    /// A connection that ends while nobody listens is the last one.
    pub fn on_event(&mut self, event: LinkEvent) -> (action: LinkAction)
        requires
            old(self).wf(),
            old(self).awaits(event),
        ensures
            final(self).wf(),
            match event {
                LinkEvent::Attempted(Attempt::Connected) => {
                    &&& action is Subscribe
                    &&& final(self).state() == LinkState::Subscribing
                    &&& final(self).failures() == 0
                },
                LinkEvent::Attempted(Attempt::Unauthorized) => {
                    action is Renew && old(self).moves(*final(self), LinkState::Renewing)
                },
                LinkEvent::Attempted(Attempt::Failed) => {
                    old(self).reconnects(*final(self), action)
                },
                LinkEvent::Renewed => old(self).reconnects(*final(self), action),
                LinkEvent::Subscribed { sent, listening } => if sent {
                    action is Read && old(self).moves(*final(self), LinkState::Reading)
                } else {
                    old(self).gives_up(*final(self), action, listening)
                },
                LinkEvent::Text(Some(raw)) => {
                    &&& action matches LinkAction::Emit(e) && raw.means(e)
                    &&& old(self).moves(*final(self), LinkState::Delivering)
                },
                LinkEvent::Text(None) => {
                    action is Read && old(self).moves(*final(self), LinkState::Reading)
                },
                LinkEvent::OtherFrame => {
                    action is Read && old(self).moves(*final(self), LinkState::Reading)
                },
                LinkEvent::Ended { listening } => {
                    old(self).gives_up(*final(self), action, listening)
                },
                LinkEvent::Delivered(true) => {
                    action is Read && old(self).moves(*final(self), LinkState::Reading)
                },
                LinkEvent::Delivered(false) => {
                    action is Stop && old(self).moves(*final(self), LinkState::Stopped)
                },
            },
            event matches LinkEvent::Ended { listening } ==> (action is Stop <==> !listening),
            event matches LinkEvent::Subscribed { sent, listening } ==> (action is Stop <==> !sent
                && !listening),
            action is Stop ==> {
                ||| event == LinkEvent::Delivered(false)
                ||| event == (LinkEvent::Ended { listening: false })
                ||| event == (LinkEvent::Subscribed { sent: false, listening: false })
            },
            action is Stop <==> final(self).state() == LinkState::Stopped,
            action is Reconnect <==> final(self).state() == LinkState::Connecting,
            action matches LinkAction::Reconnect(d) ==> d.nanos == Duration::of_secs(
                backoff_secs(old(self).failures()),
            ) && final(self).failures() == old(self).failures() + 1,
            action is Renew <==> event == LinkEvent::Attempted(Attempt::Unauthorized),
            event is Renewed || event == LinkEvent::Attempted(Attempt::Failed)
                ==> action is Reconnect,
            event matches LinkEvent::Text(Some(raw)) ==> (action matches LinkAction::Emit(e) && (
            match raw {
                RawEvent::SessionStateChanged { session_id, status } => if status@ == "uploaded"@ {
                    e == BusEvent::SessionUploaded(SessionId(session_id))
                } else {
                    e == (BusEvent::SessionStatus { session: SessionId(session_id), status })
                },
                RawEvent::ChunkUploaded { session_id, pseudo_id, seq } => e == (
                BusEvent::ChunkUploaded {
                    session: SessionId(session_id),
                    pseudo: PseudoId(pseudo_id),
                    seq: ChunkSeq(seq),
                }),
            })),
            !(event matches LinkEvent::Text(Some(_))) ==> !(action is Emit),
            action is Subscribe <==> event == LinkEvent::Attempted(Attempt::Connected),
            action is Subscribe ==> final(self).state() == LinkState::Subscribing
                && final(self).failures() == 0,
            action is Renew ==> final(self).state() == LinkState::Renewing,
            action is Read ==> final(self).state() == LinkState::Reading,
            action is Emit ==> final(self).state() == LinkState::Delivering,
            !(action is Subscribe || action is Reconnect) ==> final(self).failures() == old(
                self,
            ).failures(),
    {
        match event {
            LinkEvent::Attempted(Attempt::Connected) => {
                self.backoff.reset();
                self.state = LinkState::Subscribing;
                LinkAction::Subscribe
            },
            LinkEvent::Attempted(Attempt::Unauthorized) => {
                self.state = LinkState::Renewing;
                LinkAction::Renew
            },
            LinkEvent::Attempted(Attempt::Failed) => self.reconnect(),
            LinkEvent::Renewed => self.reconnect(),
            LinkEvent::Subscribed { sent, listening } => {
                if sent {
                    self.state = LinkState::Reading;
                    LinkAction::Read
                } else {
                    self.give_up(listening)
                }
            },
            LinkEvent::Text(Some(raw)) => {
                self.state = LinkState::Delivering;
                LinkAction::Emit(raw.classify())
            },
            LinkEvent::Text(None) => LinkAction::Read,
            LinkEvent::OtherFrame => LinkAction::Read,
            LinkEvent::Ended { listening } => self.give_up(listening),
            LinkEvent::Delivered(true) => {
                self.state = LinkState::Reading;
                LinkAction::Read
            },
            LinkEvent::Delivered(false) => {
                self.state = LinkState::Stopped;
                LinkAction::Stop
            },
        }
    }
}

} // verus!
