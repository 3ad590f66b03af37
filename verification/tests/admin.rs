use yxorp::acme::AcmeState;
use yxorp::admin::{
    admin_token_from_headers, command_response, handle, handle_request, is_authorized, is_public_endpoint,
    AdminAction, AdminCommand, CommandReply,
};
use yxorp::config::AcmeConfig;

#[test]
fn extracts_bearer_admin_token() {
    assert_eq!(
        admin_token_from_headers(Some(b"Bearer secret"), None).as_deref(),
        Some("secret")
    );
}

#[test]
fn marks_only_liveness_and_ui_as_public() {
    assert!(is_public_endpoint("GET", "/"));
    assert!(is_public_endpoint("GET", "/healthz"));
    assert!(!is_public_endpoint("GET", "/metrics"));
    assert!(!is_public_endpoint("POST", "/reload"));
}

#[test]
fn other_tokens_are_read() {
    assert_eq!(admin_token_from_headers(None, Some(b"t")).as_deref(), Some("t"));
    assert_eq!(admin_token_from_headers(Some(b"Basic x"), Some(b"t")).as_deref(), Some("t"));
    assert_eq!(admin_token_from_headers(Some(b"Bearer a"), Some(b"t")).as_deref(), Some("a"));
    assert_eq!(admin_token_from_headers(Some(b"Bearer \xff"), Some(b"t")).as_deref(), Some("t"));
    assert_eq!(admin_token_from_headers(None, Some(b"\x01")), None);
    assert_eq!(admin_token_from_headers(None, None), None);
}

#[test]
fn only_the_right_token_is_known() {
    assert!(is_authorized(Some("secret"), Some(b"Bearer secret"), None));
    assert!(!is_authorized(Some("secret"), Some(b"Bearer secreT"), None));
    assert!(!is_authorized(Some("secret"), Some(b"Bearer secret2"), None));
    assert!(!is_authorized(Some("secret"), None, None));
    assert!(!is_authorized(None, Some(b"Bearer secret"), None));
    assert!(is_authorized(Some("secret"), None, Some(b"secret")));
}

#[test]
fn calls_are_dispatched() {
    for (method, path, action) in [
        ("GET", "/", AdminAction::Ui),
        ("GET", "/healthz", AdminAction::Healthy),
        ("GET", "/readyz", AdminAction::Ready),
        ("GET", "/metrics", AdminAction::Metrics),
        ("GET", "/api/state", AdminAction::State),
        ("GET", "/debug/routes", AdminAction::Routes),
        ("GET", "/debug/certs", AdminAction::Certs),
        ("POST", "/reload", AdminAction::Command(AdminCommand::Reload)),
        ("POST", "/drain", AdminAction::Command(AdminCommand::Drain)),
        ("POST", "/", AdminAction::NotFound),
        ("GET", "/nope", AdminAction::NotFound),
        ("PUT", "/reload", AdminAction::NotFound),
    ] {
        assert_eq!(handle(method, path, true, true), action, "{method} {path}");
    }
    assert_eq!(handle("GET", "/metrics", true, false), AdminAction::MetricsDisabled);
}

#[test]
fn strangers_see_only_signs_of_life() {
    assert_eq!(handle("GET", "/readyz", false, true), AdminAction::Ready);
    for (method, path) in [("GET", "/metrics"), ("POST", "/drain"), ("GET", "/nope"), ("HEAD", "/")] {
        let action = handle(method, path, false, true);
        assert_eq!(action, AdminAction::Unauthorized);
        assert_eq!(action.status(), Some(401));
        assert_eq!(action.fixed_body(), Some("{\"error\":\"unauthorized\"}"));
        assert_eq!(action.challenge(), Some("Bearer realm=\"yxorp-admin\""));
        assert_eq!(action.content_type(), "application/json");
    }
    assert_eq!(AdminAction::Ui.content_type(), "text/html; charset=utf-8");
    assert_eq!(AdminAction::MetricsDisabled.fixed_body(), Some("metrics disabled\n"));
    assert_eq!(AdminAction::NotFound.status(), Some(404));
    assert_eq!(AdminAction::Command(AdminCommand::Drain).status(), None);
}

#[test]
fn supervisor_answers_are_passed_on() {
    let answer = |reply| {
        let a = command_response(reply);
        (a.status, a.field, a.text)
    };
    assert_eq!(answer(CommandReply::Done("draining".to_string())), (200, "status", "draining".to_string()));
    assert_eq!(answer(CommandReply::Refused("bad".to_string())), (400, "error", "bad".to_string()));
    assert_eq!(
        answer(CommandReply::Unavailable),
        (503, "error", "supervisor unavailable".to_string())
    );
    assert_eq!(
        answer(CommandReply::Dropped),
        (503, "error", "supervisor dropped command".to_string())
    );
}

#[test]
fn acme_state_follows_the_configuration() {
    let mut config = AcmeConfig::default();
    assert!(!AcmeState::from_config(&config).http_01_ready);
    config.enabled = true;
    let state = AcmeState::from_config(&config);
    assert!(state.enabled && state.http_01_ready && state.tls_alpn_01_ready);
    assert_eq!(state.storage_dir, "/var/lib/yxorp/acme");
}

#[test]
fn calls_are_judged_by_the_token_they_show() {
    let token = Some("secret");
    let shown = Some(&b"Bearer secret"[..]);
    let other = Some(&b"other"[..]);
    let state = AdminAction::State;
    assert_eq!(handle_request("GET", "/api/state", token, shown, other, true), state);
    let header = Some(&b"secret"[..]);
    assert_eq!(handle_request("GET", "/api/state", token, None, header, true), state);
    for (expected, authorization, header) in
        [(None, shown, header), (token, None, None), (token, None, other)]
    {
        assert_eq!(
            handle_request("GET", "/api/state", expected, authorization, header, true),
            AdminAction::Unauthorized
        );
        assert_eq!(
            handle_request("GET", "/healthz", expected, authorization, header, true),
            AdminAction::Healthy
        );
    }
}
