//! The admin server's answers.
use purple_wolf::relay::admin::{constant_time_eq, is_authorized, route, Body};

#[test]
fn authorized_when_no_token_configured() {
    assert!(is_authorized(None, None));
    assert!(is_authorized(None, Some("Bearer anything")));
}

#[test]
fn rejects_when_token_configured_but_header_missing_or_wrong() {
    let token = "s3cret-token";
    assert!(!is_authorized(Some(token), None), "missing header → 401");
    assert!(
        !is_authorized(Some(token), Some("Bearer wrong")),
        "wrong token → 401"
    );
    assert!(
        !is_authorized(Some(token), Some("s3cret-token")),
        "missing 'Bearer ' scheme → 401"
    );
    assert!(
        !is_authorized(Some(token), Some("Bearer s3cret-token-extra")),
        "token must match exactly, not by prefix"
    );
}

#[test]
fn accepts_correct_bearer_token() {
    assert!(is_authorized(
        Some("s3cret-token"),
        Some("Bearer s3cret-token")
    ));
}

fn text_of(body: Body) -> String {
    match body {
        Body::Text(t) => t,
        Body::Metrics => panic!("expected text"),
    }
}

#[test]
fn admin_endpoints_respond() {
    let r = route("/healthz", None, None, false, "unknown");
    assert_eq!(r.status, 200);
    assert_eq!(text_of(r.body), r#"{"status":"ok"}"#);

    let r = route("/readyz", None, None, false, "unknown");
    assert_eq!(r.status, 503);
    assert!(text_of(r.body).contains("pipeline_not_running"));

    let r = route("/readyz", None, None, true, "unknown");
    assert_eq!(r.status, 200);
    assert_eq!(text_of(r.body), r#"{"status":"ready"}"#);

    let r = route("/metrics", None, None, false, "unknown");
    assert_eq!(r.status, 200);
    assert_eq!(r.content_type, "text/plain; version=0.0.4");
    assert_eq!(r.body, Body::Metrics);

    let r = route("/version", None, None, false, "abc123");
    assert_eq!(r.status, 200);
    assert_eq!(text_of(r.body), r#"{"version":"0.4.0","git_sha":"abc123"}"#);

    let r = route("/bogus", None, None, false, "unknown");
    assert_eq!(r.status, 404);
    assert_eq!(r.content_type, "application/json");
}

#[test]
fn admin_auth_gates_protected_endpoints() {
    let token = Some("top-secret");
    assert_eq!(route("/healthz", None, token, false, "u").status, 200);
    assert_eq!(route("/metrics", None, token, false, "u").status, 401);
    assert_eq!(route("/readyz", None, token, false, "u").status, 503);
    assert_eq!(route("/metrics", Some("Bearer nope"), token, false, "u").status, 401);
    assert_eq!(route("/metrics", Some("Bearer top-secret"), token, false, "u").status, 200);
    assert_eq!(route("/bogus", None, token, false, "u").status, 401);
}

#[test]
fn bytes_are_compared_whole() {
    assert!(constant_time_eq(b"", b""));
    assert!(constant_time_eq(b"abc", b"abc"));
    assert!(!constant_time_eq(b"abc", b"abd"));
    assert!(!constant_time_eq(b"abc", b"ab"));
}
