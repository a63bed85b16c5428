use claude_sessions::json::JsonValue;
use claude_sessions::permissions::{
    auto_allow_response, outcome_status, BrokerError, PendingPermission, PermissionBehavior,
    PermissionBroker, PermissionRequest, PermissionResponse, RequestOutcome, RequestStart,
    PERMISSION_TIMEOUT_SECS,
};

fn request(id: &str, session: &str, tool: &str) -> PermissionRequest {
    PermissionRequest {
        request_id: id.to_string(),
        session_id: session.to_string(),
        tool_name: tool.to_string(),
        tool_input: JsonValue::Null,
        tool_use_id: format!("use-{}", id),
        description: None,
    }
}

fn allow_always(id: &str) -> PermissionResponse {
    PermissionResponse {
        request_id: id.to_string(),
        behavior: PermissionBehavior::Allow,
        message: None,
        interrupt: None,
        always_allow: Some(true),
    }
}

#[test]
fn resolve_consumes_request_exactly_once() {
    let mut broker: PermissionBroker<u32> = PermissionBroker::new();
    let start = broker.begin_request(request("r1", "S", "Bash"), 7);
    assert!(matches!(start, RequestStart::Registered));

    let taken = broker.resolve("r1").expect("first resolution must find the request");
    assert_eq!(taken.request.request_id, "r1");
    assert_eq!(taken.response_tx, 7);

    let again = broker.resolve("r1");
    assert!(matches!(again, Err(BrokerError::NotFound)));
}

#[test]
fn resolve_unknown_id_fails() {
    let mut broker: PermissionBroker<u32> = PermissionBroker::new();
    assert!(matches!(broker.resolve("missing"), Err(BrokerError::NotFound)));
}

#[test]
fn memo_bypasses_approver() {
    let mut broker: PermissionBroker<u32> = PermissionBroker::new();
    assert!(!broker.is_always_allowed("S", "Bash"));

    broker.record_response("S", "Bash", &allow_always("r1"));
    assert!(broker.is_always_allowed("S", "Bash"));
    assert!(!broker.is_always_allowed("S", "Edit"));
    assert!(!broker.is_always_allowed("T", "Bash"));

    match broker.begin_request(request("r2", "S", "Bash"), 9) {
        RequestStart::AutoAllowed(resp) => {
            assert_eq!(resp.request_id, "r2");
            assert!(matches!(resp.behavior, PermissionBehavior::Allow));
            assert_eq!(resp.always_allow, Some(true));
            assert!(resp.message.is_none());
            assert!(resp.interrupt.is_none());
        }
        RequestStart::Registered => panic!("a memoed pair must not register a pending entry"),
    }
    // No pending entry was created for the bypassed request.
    assert!(matches!(broker.resolve("r2"), Err(BrokerError::NotFound)));
}

#[test]
fn deny_response_leaves_memo_alone() {
    let mut broker: PermissionBroker<u32> = PermissionBroker::new();
    let deny = PermissionResponse {
        request_id: "r1".to_string(),
        behavior: PermissionBehavior::Deny,
        message: Some("not allowed".to_string()),
        interrupt: Some(true),
        always_allow: None,
    };
    broker.record_response("S", "Bash", &deny);
    assert!(!broker.is_always_allowed("S", "Bash"));

    let allow_once = PermissionResponse {
        request_id: "r2".to_string(),
        behavior: PermissionBehavior::Allow,
        message: None,
        interrupt: None,
        always_allow: None,
    };
    broker.record_response("S", "Bash", &allow_once);
    assert!(!broker.is_always_allowed("S", "Bash"));
}

#[test]
fn timeout_evicts_pending() {
    let mut broker: PermissionBroker<u32> = PermissionBroker::new();
    let start = broker.begin_request(request("r1", "S", "Bash"), 1);
    assert!(matches!(start, RequestStart::Registered));

    let outcome = broker.expire_pending("r1");
    assert!(matches!(outcome, Some(RequestOutcome::TimedOut)));

    // The entry is gone: neither a second expiry nor a resolution finds it.
    assert!(broker.expire_pending("r1").is_none());
    assert!(matches!(broker.resolve("r1"), Err(BrokerError::NotFound)));
}

#[test]
fn concurrent_requests_memo_once() {
    let mut broker: PermissionBroker<u32> = PermissionBroker::new();

    // Two requests for the same (session, tool) pair arrive before either
    // is answered: both must register, since the memo is still empty.
    assert!(matches!(broker.begin_request(request("r1", "S", "Bash"), 1), RequestStart::Registered));
    assert!(matches!(broker.begin_request(request("r2", "S", "Bash"), 2), RequestStart::Registered));

    // The first is answered allow with always_allow.
    let pending = broker.resolve("r1").expect("r1 is pending");
    broker.record_response(
        &pending.request.session_id.clone(),
        &pending.request.tool_name.clone(),
        &allow_always("r1"),
    );

    // A third request for the same pair resolves immediately, with no
    // pending entry ever created for it.
    match broker.begin_request(request("r3", "S", "Bash"), 3) {
        RequestStart::AutoAllowed(resp) => {
            assert!(matches!(resp.behavior, PermissionBehavior::Allow));
        }
        RequestStart::Registered => panic!("the memoed pair must resolve immediately"),
    }
    assert!(matches!(broker.resolve("r3"), Err(BrokerError::NotFound)));

    // The second concurrent request is still pending and resolvable.
    let second = broker.resolve("r2").expect("r2 is still pending");
    assert_eq!(second.response_tx, 2);
}

#[test]
fn pending_ids_listed_per_session() {
    let mut broker: PermissionBroker<u32> = PermissionBroker::new();
    broker.add_pending(
        "a".to_string(),
        PendingPermission { request: request("a", "S", "Bash"), response_tx: 1 },
    );
    broker.add_pending(
        "b".to_string(),
        PendingPermission { request: request("b", "T", "Edit"), response_tx: 2 },
    );
    broker.add_pending(
        "c".to_string(),
        PendingPermission { request: request("c", "S", "Edit"), response_tx: 3 },
    );
    assert_eq!(broker.get_pending_for_session("S"), vec!["a".to_string(), "c".to_string()]);
    assert_eq!(broker.get_pending_for_session("T"), vec!["b".to_string()]);
    assert!(broker.get_pending_for_session("U").is_empty());
}

#[test]
fn add_pending_replaces_same_id() {
    let mut broker: PermissionBroker<u32> = PermissionBroker::new();
    broker.add_pending(
        "a".to_string(),
        PendingPermission { request: request("a", "S", "Bash"), response_tx: 1 },
    );
    broker.add_pending(
        "a".to_string(),
        PendingPermission { request: request("a", "S", "Bash"), response_tx: 2 },
    );
    let taken = broker.take_pending("a").expect("entry present");
    assert_eq!(taken.response_tx, 2);
    assert!(broker.take_pending("a").is_none());
}

#[test]
fn outcome_status_codes() {
    assert_eq!(outcome_status(&RequestOutcome::Resolved(allow_always("r"))), 200);
    assert_eq!(outcome_status(&RequestOutcome::Cancelled), 410);
    assert_eq!(outcome_status(&RequestOutcome::TimedOut), 408);
}

#[test]
fn auto_allow_response_shape() {
    let resp = auto_allow_response("req-9");
    assert_eq!(resp.request_id, "req-9");
    assert!(matches!(resp.behavior, PermissionBehavior::Allow));
    assert_eq!(resp.always_allow, Some(true));
    assert!(resp.message.is_none());
    assert!(resp.interrupt.is_none());
}

#[test]
fn timeout_window_is_five_minutes() {
    assert_eq!(PERMISSION_TIMEOUT_SECS, 300);
}
