//! Error taxonomy of the supervisor and of the summarizer backends.

use vstd::prelude::*;

verus! {

/// Failure of a supervisor operation.
#[derive(Debug)]
pub enum AgentError {
    /// No agent with the given identifier is registered.
    NotFound(String),
    /// The agent binary could not be resolved or started.
    Spawn(String),
    /// A pipe read or write failed.
    Io(String),
    /// The operation found its target in an unusable state.
    InvalidState(String),
}

/// Failure of a summarizer backend.
#[derive(Debug)]
pub enum SummarizeError {
    /// The backend is not reachable at all.
    Unavailable,
    /// The backend answered over HTTP with a failure, or the transport failed.
    Http(String),
    /// Any other backend failure.
    Other(String),
}

impl AgentError {
    /// A human-readable message, in place of a `Display` impl.
    pub fn message(&self) -> (m: String)
        ensures
            m@ == match self {
                AgentError::NotFound(s) => "agent not found: "@ + s@,
                AgentError::Spawn(s) => "spawn error: "@ + s@,
                AgentError::Io(s) => "io error: "@ + s@,
                AgentError::InvalidState(s) => "invalid state: "@ + s@,
            },
    {
        match self {
            AgentError::NotFound(s) => {
                let mut m = String::from_str("agent not found: ");
                m.append(s.as_str());
                m
            },
            AgentError::Spawn(s) => {
                let mut m = String::from_str("spawn error: ");
                m.append(s.as_str());
                m
            },
            AgentError::Io(s) => {
                let mut m = String::from_str("io error: ");
                m.append(s.as_str());
                m
            },
            AgentError::InvalidState(s) => {
                let mut m = String::from_str("invalid state: ");
                m.append(s.as_str());
                m
            },
        }
    }
}

impl SummarizeError {
    /// A human-readable message, in place of a `Display` impl.
    pub fn message(&self) -> (m: String)
        ensures
            m@ == match self {
                SummarizeError::Unavailable => "backend unavailable"@,
                SummarizeError::Http(s) => "http error: "@ + s@,
                SummarizeError::Other(s) => "other: "@ + s@,
            },
    {
        match self {
            SummarizeError::Unavailable => String::from_str("backend unavailable"),
            SummarizeError::Http(s) => {
                let mut m = String::from_str("http error: ");
                m.append(s.as_str());
                m
            },
            SummarizeError::Other(s) => {
                let mut m = String::from_str("other: ");
                m.append(s.as_str());
                m
            },
        }
    }
}

} // verus!
