//! The admin surface: what may be asked of the worker, and what is answered.
//!
//! - `POST /admin/rerun/{session_id}` runs a session again, from scratch.
//! - `GET /admin/status` shows the sessions that are being run.
//!
//! Commands go to the event loop, which alone owns the running sessions.

use vstd::prelude::*;

use crate::ids::SessionId;
use crate::time::Duration;

verus! {

/// Messages from the admin surface to the event loop. `R` and `S` stand for
/// where the answers go.
pub enum AdminCmd<R, S> {
    /// Run a session again, after its outputs have been cleared.
    Rerun { session: SessionId, queued: R },
    /// Show what is being run.
    Status { snapshot: S },
}

/// What is being run. `D` stands for a point in calendar time.
pub struct StatusSnapshot<D> {
    pub active_sessions: Vec<u128>,
    pub last_heartbeat_at: Option<D>,
    pub version: &'static str,
}

/// The answer to an admin request.
pub enum AdminReply<A> {
    /// The event loop's answer.
    Answer(A),
    /// The event loop no longer takes commands.
    Gone,
    /// The event loop did not answer in time.
    Late,
}

/// The answer to an admin request: `sent` says whether the event loop took the
/// command, `answer` is what it answered in time.
pub fn admin_reply<A>(sent: bool, answer: Option<A>) -> (r: AdminReply<A>)
    ensures
        match r {
            AdminReply::Answer(a) => sent && answer == Some(a),
            AdminReply::Gone => !sent,
            AdminReply::Late => sent && answer is None,
        },
{
    if !sent {
        return AdminReply::Gone;
    }
    match answer {
        Some(a) => AdminReply::Answer(a),
        None => AdminReply::Late,
    }
}

impl<A> AdminReply<A> {
    /// The status code of the answer.
    pub fn status(&self) -> (code: u16)
        ensures
            code == (if self is Answer {
                200u16
            } else {
                503u16
            }),
    {
        match self {
            AdminReply::Answer(_) => 200,
            AdminReply::Gone | AdminReply::Late => 503,
        }
    }

    /// What is said where there is no answer.
    pub fn excuse(&self) -> (s: Option<&'static str>)
        ensures
            match *self {
                AdminReply::Answer(_) => s is None,
                AdminReply::Gone => s matches Some(t) && t@ == "event loop gone"@,
                AdminReply::Late => s matches Some(t) && t@ == "timeout"@,
            },
    {
        match self {
            AdminReply::Answer(_) => None,
            AdminReply::Gone => Some("event loop gone"),
            AdminReply::Late => Some("timeout"),
        }
    }
}

/// How long a request for the status waits for the event loop.
pub fn status_timeout() -> (d: Duration)
    ensures
        d.nanos == Duration::of_secs(2),
        d.nanos == 2_000_000_000,
{
    Duration::from_secs(2)
}

/// How long a request for a rerun waits for the event loop.
pub fn rerun_timeout() -> (d: Duration)
    ensures
        d.nanos == Duration::of_secs(5),
        d.nanos == 5_000_000_000,
{
    Duration::from_secs(5)
}

} // verus!
