//! Error taxonomy of the backend core.
//!
//! Every failure surfaces as an `Error` event on the bus rather than being
//! retried silently; the core performs no automatic retry of failed queries
//! and no reconnection of dropped sessions.

use vstd::prelude::*;

verus! {

/// Ghost model of a [`CoreError`]: the same shape over mathematical strings.
pub ghost enum CoreErrorV {
    Connection(Seq<char>),
    Query(Seq<char>),
    Protocol,
    Dispatch,
}

/// A failure of the backend core.
///
/// - `Connection`: session creation failed (refused, auth, DNS). Fatal to
///   that session's creation only; other sessions are unaffected.
/// - `Query`: the server rejected the current request (syntax, constraint,
///   connection loss). Fatal to the current request only.
/// - `Protocol`: an unexpected message kind reached the result batcher.
///   Fatal to the whole batch.
/// - `Dispatch`: the event bus was used after its queue was closed.
#[derive(Debug, PartialEq, Eq)]
pub enum CoreError {
    Connection(String),
    Query(String),
    Protocol,
    Dispatch,
}

impl DeepView for CoreError {
    type V = CoreErrorV;

    open spec fn deep_view(&self) -> CoreErrorV {
        match self {
            CoreError::Connection(msg) => CoreErrorV::Connection(msg@),
            CoreError::Query(msg) => CoreErrorV::Query(msg@),
            CoreError::Protocol => CoreErrorV::Protocol,
            CoreError::Dispatch => CoreErrorV::Dispatch,
        }
    }
}

impl CoreError {
    /// The text a renderer shows for this failure: the server's own message
    /// where there is one, a fixed description otherwise.
    pub fn message(&self) -> (m: String)
        ensures
            m@ == (match self {
                CoreError::Connection(msg) => msg@,
                CoreError::Query(msg) => msg@,
                CoreError::Protocol => "unexpected message in a simple query"@,
                CoreError::Dispatch => "event emitted after the bus was closed"@,
            }),
    {
        match self {
            CoreError::Connection(msg) => msg.clone(),
            CoreError::Query(msg) => msg.clone(),
            CoreError::Protocol => "unexpected message in a simple query".to_owned(),
            CoreError::Dispatch => "event emitted after the bus was closed".to_owned(),
        }
    }
}

impl Clone for CoreError {
    fn clone(&self) -> (res: Self)
        ensures
            res.deep_view() == self.deep_view(),
    {
        match self {
            CoreError::Connection(msg) => CoreError::Connection(msg.clone()),
            CoreError::Query(msg) => CoreError::Query(msg.clone()),
            CoreError::Protocol => CoreError::Protocol,
            CoreError::Dispatch => CoreError::Dispatch,
        }
    }
}

} // verus!
