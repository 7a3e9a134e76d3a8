use slonik_core::error::CoreError;
use slonik_core::event::{AppEvent, PgRequest};
use slonik_core::pg_response::{PgResponse, QueryMessage, SimpleRow};
use slonik_core::pg_session::{
    conclude_request, parse_port, request_of, ConnectionConfig, RequestOutcome, RouteDecision,
    SessionRegistry,
};

#[test]
fn same_id_creates_one_session() {
    let mut registry = SessionRegistry::new();
    let first = PgRequest { id: 7, text: "select 1".to_string() };
    let second = PgRequest { id: 7, text: "select 2".to_string() };

    assert_eq!(registry.route(&first), RouteDecision::CreateSession);
    registry.on_session_created(first.id);
    assert_eq!(registry.route(&second), RouteDecision::UseExisting);
    registry.on_session_created(second.id);
    assert_eq!(registry.route(&second), RouteDecision::UseExisting);
}

#[test]
fn different_ids_create_independent_sessions() {
    let mut registry = SessionRegistry::new();
    let a = PgRequest { id: 1, text: "select 1".to_string() };
    let b = PgRequest { id: 2, text: "select 2".to_string() };

    assert_eq!(registry.route(&a), RouteDecision::CreateSession);
    registry.on_session_created(a.id);
    assert_eq!(registry.route(&b), RouteDecision::CreateSession);
    registry.on_session_created(b.id);
    assert_eq!(registry.route(&a), RouteDecision::UseExisting);
    assert_eq!(registry.route(&b), RouteDecision::UseExisting);
}

#[test]
fn failed_creation_leaves_id_free() {
    let mut registry = SessionRegistry::new();
    let req = PgRequest { id: 3, text: "select 1".to_string() };

    assert_eq!(registry.route(&req), RouteDecision::CreateSession);
    // The connection attempt failed: nothing is recorded.
    assert_eq!(registry.route(&req), RouteDecision::CreateSession);
    registry.on_session_created(req.id);
    assert_eq!(registry.route(&req), RouteDecision::UseExisting);
}

#[test]
fn connect_failure_becomes_connection_error_event() {
    let ev = conclude_request(0, RequestOutcome::ConnectFailed("refused".to_string()));
    assert_eq!(ev, AppEvent::Error(CoreError::Connection("refused".to_string())));
}

#[test]
fn query_failure_becomes_query_error_event() {
    let ev = conclude_request(0, RequestOutcome::QueryFailed("syntax error".to_string()));
    assert_eq!(ev, AppEvent::Error(CoreError::Query("syntax error".to_string())));
}

#[test]
fn completed_query_becomes_response_event() {
    let messages = vec![
        QueryMessage::Row(SimpleRow {
            columns: vec!["n".to_string()],
            values: vec![Some("1".to_string())],
        }),
        QueryMessage::CommandComplete(1),
    ];

    let ev = conclude_request(5, RequestOutcome::Completed(messages));

    match ev {
        AppEvent::PgResponses { id, responses } => {
            assert_eq!(id, 5);
            assert_eq!(responses.len(), 2);
            assert_eq!(responses[1], PgResponse::CommandComplete(1));
        }
        other => panic!("unexpected event: {:?}", other),
    }
}

#[test]
fn empty_request_round_trip_yields_empty_response() {
    // An empty request text produces no wire messages; the loop republishes
    // an empty response rather than failing.
    let ev = conclude_request(0, RequestOutcome::Completed(Vec::new()));
    assert_eq!(ev, AppEvent::PgResponses { id: 0, responses: Vec::new() });
}

#[test]
fn protocol_violation_becomes_protocol_error_event() {
    let ev = conclude_request(0, RequestOutcome::Completed(vec![QueryMessage::Unsupported]));
    assert_eq!(ev, AppEvent::Error(CoreError::Protocol));
}

#[test]
fn request_loop_consumes_only_requests() {
    let req = PgRequest { id: 1, text: "select 1".to_string() };
    assert_eq!(request_of(&AppEvent::PgRequest(req.clone())), Some(req));
    assert_eq!(request_of(&AppEvent::Started), None);
}

#[test]
fn config_defaults() {
    let cfg = ConnectionConfig::resolve(None, None, None, None).unwrap();
    assert_eq!(cfg.host, "localhost");
    assert_eq!(cfg.port, 5432);
    assert_eq!(cfg.user, "postgres");
    assert_eq!(cfg.password, None);
}

#[test]
fn config_explicit_values() {
    let cfg = ConnectionConfig::resolve(
        Some("db.example".to_string()),
        Some("6543".to_string()),
        Some("admin".to_string()),
        Some("pw".to_string()),
    )
    .unwrap();
    assert_eq!(cfg.host, "db.example");
    assert_eq!(cfg.port, 6543);
    assert_eq!(cfg.user, "admin");
    assert_eq!(cfg.password.as_deref(), Some("pw"));
}

#[test]
fn config_bad_port_fails_creation() {
    let err = ConnectionConfig::resolve(None, Some("54x2".to_string()), None, None).unwrap_err();
    assert_eq!(err, CoreError::Connection("invalid port".to_string()));
}

#[test]
fn error_messages_carry_the_cause() {
    assert_eq!(CoreError::Connection("refused".to_string()).message(), "refused");
    assert_eq!(CoreError::Query("syntax error".to_string()).message(), "syntax error");
    assert_eq!(
        CoreError::Protocol.message(),
        "unexpected message in a simple query"
    );
    assert_eq!(
        CoreError::Dispatch.message(),
        "event emitted after the bus was closed"
    );
}

#[test]
fn port_parsing() {
    assert_eq!(parse_port("5432"), Some(5432));
    assert_eq!(parse_port("+80"), Some(80));
    assert_eq!(parse_port("0"), Some(0));
    assert_eq!(parse_port("00080"), Some(80));
    assert_eq!(parse_port("65535"), Some(65535));
    assert_eq!(parse_port("65536"), None);
    assert_eq!(parse_port("99999999999999999999"), None);
    assert_eq!(parse_port(""), None);
    assert_eq!(parse_port("+"), None);
    assert_eq!(parse_port("12a"), None);
    assert_eq!(parse_port("-1"), None);
    assert_eq!(parse_port(" 5432"), None);
}
