//! The worker's error type.
//!
//! Variants are split by what the caller does about them: retry the session,
//! skip it, or give up at startup.

use vstd::prelude::*;

use crate::ids::{hyphenated, SessionId};

verus! {

/// Worker-wide error type.
#[derive(Debug)]
pub enum WorkerError {
    /// A data-api call failed, by its status or on the wire.
    Api(String),
    /// The data-api refused a claim: another worker owns the session.
    ClaimLost(SessionId),
    /// The session no longer exists.
    NotFound(SessionId),
    /// The transcription pipeline failed.
    Pipeline(String),
    /// The event-bus connection failed.
    WebSocket(String),
    /// The admin surface failed.
    Admin(String),
    /// The configuration is invalid.
    Config(String),
}

impl WorkerError {
    /// Failures of a session that a later run may get past.
    pub open spec fn retryable(self) -> bool {
        self is Api || self is Pipeline || self is WebSocket
    }

    /// True when the caller should schedule a retry of the session.
    pub fn is_retryable_session_failure(&self) -> (b: bool)
        ensures
            b == self.retryable(),
            b <==> self is Api || self is Pipeline || self is WebSocket,
    {
        match self {
            WorkerError::Api(_) | WorkerError::Pipeline(_) | WorkerError::WebSocket(_) => true,
            WorkerError::ClaimLost(_)
            | WorkerError::NotFound(_)
            | WorkerError::Admin(_)
            | WorkerError::Config(_) => false,
        }
    }

    /// What is printed for the error.
    pub open spec fn spec_message(self) -> Seq<char> {
        match self {
            WorkerError::Api(m) => "data-api error: "@ + m@,
            WorkerError::ClaimLost(id) => "claim lost for session "@ + hyphenated(id.0),
            WorkerError::NotFound(id) => "session "@ + hyphenated(id.0) + " not found"@,
            WorkerError::Pipeline(m) => "pipeline: "@ + m@,
            WorkerError::WebSocket(m) => "websocket: "@ + m@,
            WorkerError::Admin(m) => "admin: "@ + m@,
            WorkerError::Config(m) => "config: "@ + m@,
        }
    }

    /// The error as a line of text.
    pub fn message(&self) -> (s: String)
        ensures
            s@ == self.spec_message(),
            s@ == match *self {
                WorkerError::Api(m) => "data-api error: "@ + m@,
                WorkerError::ClaimLost(id) => "claim lost for session "@ + hyphenated(id.0),
                WorkerError::NotFound(id) => "session "@ + hyphenated(id.0) + " not found"@,
                WorkerError::Pipeline(m) => "pipeline: "@ + m@,
                WorkerError::WebSocket(m) => "websocket: "@ + m@,
                WorkerError::Admin(m) => "admin: "@ + m@,
                WorkerError::Config(m) => "config: "@ + m@,
            },
    {
        match self {
            WorkerError::Api(m) => "data-api error: ".to_owned().concat(m.as_str()),
            WorkerError::ClaimLost(id) => "claim lost for session ".to_owned().concat(
                id.to_text().as_str(),
            ),
            WorkerError::NotFound(id) => "session ".to_owned().concat(
                id.to_text().as_str(),
            ).concat(" not found"),
            WorkerError::Pipeline(m) => "pipeline: ".to_owned().concat(m.as_str()),
            WorkerError::WebSocket(m) => "websocket: ".to_owned().concat(m.as_str()),
            WorkerError::Admin(m) => "admin: ".to_owned().concat(m.as_str()),
            WorkerError::Config(m) => "config: ".to_owned().concat(m.as_str()),
        }
    }

    /// The error for a request that failed on the wire, from what the HTTP
    /// client says of it.
    pub fn from_transport(text: String) -> (e: WorkerError)
        ensures
            e == WorkerError::Api(text),
    {
        WorkerError::Api(text)
    }

    /// The error for a body that is not the JSON that was expected.
    pub fn from_json(text: &str) -> (e: WorkerError)
        ensures
            e matches WorkerError::Api(m) && m@ == "json: "@ + text@,
    {
        WorkerError::Api("json: ".to_owned().concat(text))
    }
}

} // verus!
