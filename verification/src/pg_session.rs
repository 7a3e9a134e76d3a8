//! Session routing: one live connection slot per logical id, and the
//! decisions of the request loop.
//!
//! The loop itself performs network work (connecting, executing queries) and
//! therefore lives with the embedding program; everything it decides — which
//! session a request routes to, when a session must be created, what event
//! each outcome turns into, which connection parameters apply — is here.

use std::collections::HashSet;

use vstd::prelude::*;

use crate::error::{CoreError, CoreErrorV};
use crate::event::{AppEvent, EventV, PgRequest};
use crate::pg_response::{batches_spec, PgResponse, QueryMessage};

verus! {

broadcast use vstd::std_specs::hash::group_hash_axioms;

// ---------------------------------------------------------------------------
// Connection parameters
// ---------------------------------------------------------------------------

/// Whether `c` is a decimal digit.
pub open spec fn is_dec_digit(c: char) -> bool {
    48 <= c as u32 <= 57
}

/// Whether every character of `s` is a decimal digit.
pub open spec fn all_dec_digits(s: Seq<char>) -> bool {
    forall|i: int| 0 <= i < s.len() ==> is_dec_digit(#[trigger] s[i])
}

/// The number a digit sequence denotes in base ten.
pub open spec fn dec_value(s: Seq<char>) -> int
    decreases s.len(),
{
    if s.len() == 0 {
        0
    } else {
        dec_value(s.drop_last()) * 10 + (s.last() as u32 - 48)
    }
}

/// What parsing a port string yields: an optional leading `+`, then at
/// least one decimal digit, denoting a value that fits in sixteen bits.
pub open spec fn parse_port_spec(s: Seq<char>) -> Option<u16> {
    let t = if s.len() > 0 && s[0] == '+' {
        s.skip(1)
    } else {
        s
    };
    if t.len() > 0 && all_dec_digits(t) && dec_value(t) <= 0xffff {
        Some(dec_value(t) as u16)
    } else {
        None
    }
}

proof fn lemma_dec_value_nonneg(s: Seq<char>)
    requires
        all_dec_digits(s),
    ensures
        dec_value(s) >= 0,
    decreases s.len(),
{
    if s.len() > 0 {
        assert(forall|i: int|
            0 <= i < s.drop_last().len() ==> is_dec_digit(#[trigger] s.drop_last()[i]));
        lemma_dec_value_nonneg(s.drop_last());
    }
}

proof fn lemma_dec_value_prefix(s: Seq<char>, m: int)
    requires
        0 <= m <= s.len(),
        all_dec_digits(s),
    ensures
        dec_value(s.take(m)) <= dec_value(s),
    decreases s.len() - m,
{
    if m == s.len() {
        assert(s.take(m) =~= s);
    } else {
        lemma_dec_value_prefix(s, m + 1);
        assert(s.take(m + 1).drop_last() =~= s.take(m));
        assert(s.take(m + 1).last() == s[m]);
        assert(forall|i: int| 0 <= i < s.take(m).len() ==> is_dec_digit(#[trigger] s.take(m)[i]));
        lemma_dec_value_nonneg(s.take(m));
    }
}

/// Parse a decimal port number, as the environment hands it over: an
/// optional leading `+`, then digits, value at most 65535.
pub fn parse_port(s: &str) -> (r: Option<u16>)
    ensures
        r == parse_port_spec(s@),
{
    let len = s.unicode_len();
    let mut start: usize = 0;
    if len > 0 && s.get_char(0) == '+' {
        start = 1;
    }
    let ghost t = if s@.len() > 0 && s@[0] == '+' {
        s@.skip(1)
    } else {
        s@
    };
    proof {
        assert(t.len() == len - start);
        assert(forall|j: int| 0 <= j < t.len() ==> t[j] == s@[start + j]);
    }
    if start >= len {
        return None;
    }
    let mut value: u32 = 0;
    let mut i: usize = start;
    while i < len
        invariant
            start <= i <= len,
            len == s@.len(),
            start == 0 || start == 1,
            t == (if s@.len() > 0 && s@[0] == '+' {
                s@.skip(1)
            } else {
                s@
            }),
            t.len() == len - start,
            forall|j: int| 0 <= j < t.len() ==> t[j] == s@[start + j],
            value <= 0xffff,
            all_dec_digits(t.take(i - start)),
            value == dec_value(t.take(i - start)),
        decreases len - i,
    {
        let c = s.get_char(i);
        let d = c as u32;
        if d < 48 || d > 57 {
            proof {
                assert(t[i - start] == s@[i as int]);
                assert(!is_dec_digit(t[i - start]));
                assert(!all_dec_digits(t));
                assert(parse_port_spec(s@) is None);
            }
            return None;
        }
        value = value * 10 + (d - 48);
        proof {
            assert(t.take(i - start + 1).drop_last() =~= t.take(i - start));
            assert(t.take(i - start + 1).last() == s@[i as int]);
            assert(forall|j: int|
                0 <= j < t.take(i - start + 1).len() ==> is_dec_digit(
                    #[trigger] t.take(i - start + 1)[j],
                ));
            assert(value == dec_value(t.take(i - start + 1)));
        }
        if value > 0xffff {
            proof {
                assert(all_dec_digits(t) ==> dec_value(t) > 0xffff) by {
                    if all_dec_digits(t) {
                        lemma_dec_value_prefix(t, i - start + 1);
                    }
                }
                assert(parse_port_spec(s@) is None);
            }
            return None;
        }
        i += 1;
    }
    proof {
        assert(t.take(t.len() as int) =~= t);
    }
    Some(value as u16)
}

/// Ghost model of a [`ConnectionConfig`].
pub ghost struct ConnectionConfigV {
    pub host: Seq<char>,
    pub port: u16,
    pub user: Seq<char>,
    pub password: Option<Seq<char>>,
}

/// The parameters a session's connection is established with, read once at
/// first session creation.
#[derive(Debug, PartialEq, Eq)]
pub struct ConnectionConfig {
    pub host: String,
    pub port: u16,
    pub user: String,
    pub password: Option<String>,
}

impl DeepView for ConnectionConfig {
    type V = ConnectionConfigV;

    open spec fn deep_view(&self) -> ConnectionConfigV {
        ConnectionConfigV {
            host: self.host@,
            port: self.port,
            user: self.user@,
            password: self.password.deep_view(),
        }
    }
}

impl ConnectionConfig {
    /// Resolve the configuration from optional textual settings: host
    /// defaults to `localhost`, port to 5432, user to `postgres`; the
    /// password stays optional. An unparsable port fails session creation.
    pub fn resolve(
        host: Option<String>,
        port: Option<String>,
        user: Option<String>,
        password: Option<String>,
    ) -> (r: Result<ConnectionConfig, CoreError>)
        ensures
            match r {
                Ok(cfg) => {
                    &&& cfg.host@ == (match host {
                        Some(h) => h@,
                        None => "localhost"@,
                    })
                    &&& (match port {
                        Some(p) => parse_port_spec(p@) == Some(cfg.port),
                        None => cfg.port == 5432,
                    })
                    &&& cfg.user@ == (match user {
                        Some(u) => u@,
                        None => "postgres"@,
                    })
                    &&& cfg.password.deep_view() == password.deep_view()
                },
                Err(e) => {
                    &&& (match port {
                        Some(p) => parse_port_spec(p@) is None,
                        None => false,
                    })
                    &&& (match e {
                        CoreError::Connection(msg) => msg@ == "invalid port"@,
                        _ => false,
                    })
                },
            },
    {
        let port_number: u16 = match &port {
            Option::Some(p) => match parse_port(p.as_str()) {
                Option::Some(n) => n,
                Option::None => {
                    return Err(CoreError::Connection("invalid port".to_owned()));
                },
            },
            Option::None => 5432,
        };
        let host_name: String = match host {
            Option::Some(h) => h,
            Option::None => "localhost".to_owned(),
        };
        let user_name: String = match user {
            Option::Some(u) => u,
            Option::None => "postgres".to_owned(),
        };
        Ok(ConnectionConfig { host: host_name, port: port_number, user: user_name, password })
    }
}

// ---------------------------------------------------------------------------
// The session registry
// ---------------------------------------------------------------------------

/// What the registry decides for one request.
#[derive(Debug, Clone, Copy, PartialEq, Eq, Structural)]
pub enum RouteDecision {
    /// The request's id already owns a live session; execute on it.
    UseExisting,
    /// No session exists for the id yet; create one, then execute.
    CreateSession,
}

/// How a request with the given id routes against the given set of live
/// session ids.
pub open spec fn route_spec(sessions: Set<usize>, id: usize) -> RouteDecision {
    if sessions.contains(id) {
        RouteDecision::UseExisting
    } else {
        RouteDecision::CreateSession
    }
}

/// The set of logical ids that own a live session. Exactly one session
/// exists per id for the process lifetime; sessions are created lazily on
/// the first request for their id and never evicted.
pub struct SessionRegistry {
    ids: HashSet<usize>,
}

impl SessionRegistry {
    /// The ids that currently own a session.
    pub closed spec fn sessions(&self) -> Set<usize> {
        self.ids@
    }

    pub fn new() -> (r: Self)
        ensures
            r.sessions() == Set::<usize>::empty(),
    {
        SessionRegistry { ids: HashSet::new() }
    }

    pub fn has_session(&self, id: usize) -> (b: bool)
        ensures
            b == self.sessions().contains(id),
    {
        self.ids.contains(&id)
    }

    /// Decide how the request is served: on the existing session of its id,
    /// or on a session still to be created. The registry itself is not
    /// changed; creation is recorded by [`Self::on_session_created`] once it
    /// succeeded, so a failed creation leaves the id free for the next try.
    pub fn route(&self, request: &PgRequest) -> (d: RouteDecision)
        ensures
            d == route_spec(self.sessions(), request.id),
    {
        if self.has_session(request.id) {
            RouteDecision::UseExisting
        } else {
            RouteDecision::CreateSession
        }
    }

    /// Record that a session now exists for `id`.
    pub fn on_session_created(&mut self, id: usize)
        ensures
            final(self).sessions() == old(self).sessions().insert(id),
    {
        self.ids.insert(id);
    }
}

/// Two requests with the same id, issued back to back, never create two
/// sessions: once the first request's session creation is recorded, the
/// second request routes to the existing session.
pub proof fn lemma_same_id_single_creation(sessions: Set<usize>, id: usize)
    ensures
        route_spec(sessions.insert(id), id) == RouteDecision::UseExisting,
{
}

/// Requests with different ids are served independently: recording a session
/// for one id leaves the routing of every other id unchanged, so two fresh
/// ids create two sessions, one each.
pub proof fn lemma_different_ids_independent(sessions: Set<usize>, id1: usize, id2: usize)
    requires
        id1 != id2,
    ensures
        route_spec(sessions.insert(id1), id2) == route_spec(sessions, id2),
{
}

// ---------------------------------------------------------------------------
// The request loop's decisions
// ---------------------------------------------------------------------------

/// How serving one request ended, as the embedding loop reports it: session
/// creation failed, the server rejected the query, or the query completed
/// with its flat message sequence.
#[derive(Debug)]
pub enum RequestOutcome {
    ConnectFailed(String),
    QueryFailed(String),
    Completed(Vec<QueryMessage>),
}

/// Turn the outcome of one request into the event the loop republishes on
/// the bus: a connection failure or a query failure becomes the matching
/// error event; a completed query is batched, yielding either the response
/// or a protocol error.
pub fn conclude_request(id: usize, outcome: RequestOutcome) -> (ev: AppEvent)
    ensures
        ev.deep_view() == (match outcome {
            RequestOutcome::ConnectFailed(msg) => EventV::Error(CoreErrorV::Connection(msg@)),
            RequestOutcome::QueryFailed(msg) => EventV::Error(CoreErrorV::Query(msg@)),
            RequestOutcome::Completed(msgs) => match batches_spec(msgs.deep_view()) {
                Some(responses) => EventV::PgResponses { id, responses },
                None => EventV::Error(CoreErrorV::Protocol),
            },
        }),
{
    match outcome {
        RequestOutcome::ConnectFailed(msg) => AppEvent::Error(CoreError::Connection(msg)),
        RequestOutcome::QueryFailed(msg) => AppEvent::Error(CoreError::Query(msg)),
        RequestOutcome::Completed(msgs) => match PgResponse::process_batches(msgs) {
            Ok(responses) => AppEvent::PgResponses { id, responses },
            Err(e) => AppEvent::Error(e),
        },
    }
}

/// The one event kind the request loop consumes: pick a query request off
/// the bus, leaving every other event to the other listeners.
pub fn request_of(event: &AppEvent) -> (r: Option<PgRequest>)
    ensures
        match event {
            AppEvent::PgRequest(req) => r is Some && r.unwrap().deep_view() == req.deep_view(),
            _ => r is None,
        },
{
    match event {
        AppEvent::PgRequest(req) => Some(req.clone()),
        _ => None,
    }
}

} // verus!
