//! The relay's configuration: what is accepted, and what it resolves to.
use purple_wolf::relay::config::{
    any_enabled, resolve_admin_token, validate, validate_with, Config, RelayConfig, Resolved,
    RetryConfig, SecretReads, Severity, SourceConfig, SubscriberConfig, SubscriberFilter,
    TokenReads,
};

fn subscriber(id: &str, url: &str) -> SubscriberConfig {
    SubscriberConfig {
        id: id.into(),
        url: url.into(),
        secret_env: None,
        secret_file: None,
        filter: SubscriberFilter::default(),
        retry: RetryConfig::default(),
        timeout_ms: 5000,
        enabled: true,
    }
}

fn with_env(id: &str, url: &str, name: &str) -> SubscriberConfig {
    SubscriberConfig { secret_env: Some(name.into()), ..subscriber(id, url) }
}

fn config(subscribers: Vec<SubscriberConfig>) -> Config {
    Config {
        sources: vec![SourceConfig::Stdin],
        enrichments: vec![],
        subscribers,
        relay: RelayConfig::default(),
    }
}

fn nothing() -> SecretReads {
    SecretReads { env: None, file: Err("no such file".into()) }
}

fn env(value: &str) -> SecretReads {
    SecretReads { env: Some(value.into()), file: Err("no such file".into()) }
}

fn no_token() -> TokenReads {
    TokenReads { env: None, file: Err("no such file".into()) }
}

fn ok(cfg: Config, reads: Vec<SecretReads>) -> Resolved {
    match validate(cfg, &reads, &no_token()) {
        Ok(r) => r,
        Err(e) => panic!("{}", e.message()),
    }
}

fn err(cfg: Config, reads: Vec<SecretReads>) -> String {
    match validate(cfg, &reads, &no_token()) {
        Ok(_) => panic!("expected an error"),
        Err(e) => e.message(),
    }
}

fn secret<'a>(r: &'a Resolved, id: &str) -> &'a [u8] {
    r.subscriber_secrets.iter().find(|(k, _)| k == id).map(|(_, s)| s.expose().as_slice()).unwrap()
}

#[test]
fn admin_token_defaults_to_none_open() {
    let relay = RelayConfig::default();
    assert!(resolve_admin_token(&relay, &no_token()).unwrap().is_none());
}

#[test]
fn admin_token_resolves_from_env() {
    let relay = RelayConfig {
        admin_token_env: Some("TEST_ADMIN_TOKEN_RESOLVES".into()),
        ..RelayConfig::default()
    };
    let reads = TokenReads { env: Some("tok-123".into()), file: Err("none".into()) };
    let resolved = resolve_admin_token(&relay, &reads).unwrap();
    assert_eq!(resolved.map(|s| s.expose().clone()), Some(b"tok-123".to_vec()));
}

#[test]
fn admin_token_resolves_from_file_without_its_newline() {
    let relay = RelayConfig { admin_token_file: Some("/t".into()), ..RelayConfig::default() };
    let reads = TokenReads { env: None, file: Ok("tok\n".into()) };
    let resolved = resolve_admin_token(&relay, &reads).unwrap();
    assert_eq!(resolved.map(|s| s.expose().clone()), Some(b"tok".to_vec()));
    let reads = TokenReads { env: None, file: Ok("\n".into()) };
    assert!(resolve_admin_token(&relay, &reads).is_err());
    let reads = TokenReads { env: None, file: Err("gone".into()) };
    assert!(resolve_admin_token(&relay, &reads).err().unwrap().message().contains("gone"));
}

#[test]
fn admin_token_rejects_both_references() {
    let relay = RelayConfig {
        admin_token_env: Some("X".into()),
        admin_token_file: Some("/tmp/x".into()),
        ..RelayConfig::default()
    };
    let err = resolve_admin_token(&relay, &no_token()).err().unwrap().message();
    assert!(err.contains("only one of"), "err: {err}");
}

#[test]
fn admin_token_rejects_missing_env() {
    let relay = RelayConfig {
        admin_token_env: Some("TEST_ADMIN_TOKEN_DEFINITELY_UNSET_XYZ".into()),
        ..RelayConfig::default()
    };
    let err = resolve_admin_token(&relay, &no_token()).err().unwrap().message();
    assert!(err.contains("is not set"), "err: {err}");
}

#[test]
fn validate_rejects_no_sources() {
    let mut cfg = config(vec![with_env("a", "https://x/y", "S")]);
    cfg.sources = vec![];
    let err = err(cfg, vec![nothing()]);
    assert!(err.contains("source"), "err: {err}");
}

#[test]
fn validate_accepts_no_subscribers() {
    let resolved = ok(config(vec![]), vec![]);
    assert!(resolved.subscriber_secrets.is_empty());
}

#[test]
fn validate_rejects_zero_subscriber_queue_before_runtime_channel_creation() {
    let mut cfg = config(vec![]);
    cfg.relay.subscriber_queue = 0;
    let error = err(cfg, vec![]);
    assert!(error.contains("subscriber_queue"), "err: {error}");
}

#[test]
fn validate_rejects_subscriber_missing_secret() {
    let err = err(config(vec![subscriber("a", "https://x/y")]), vec![nothing()]);
    assert!(err.contains("secret_env"), "err: {err}");
}

#[test]
fn validate_rejects_subscriber_with_both_secret_kinds() {
    let mut s = with_env("a", "https://x/y", "S");
    s.secret_file = Some("/tmp/x".into());
    let err = err(config(vec![s]), vec![nothing()]);
    assert!(err.contains("only one"), "err: {err}");
}

#[test]
fn validate_rejects_subscriber_bad_url_scheme() {
    let err = err(config(vec![with_env("a", "ftp://x/y", "S")]), vec![nothing()]);
    assert!(err.contains("http"), "err: {err}");
}

#[test]
fn validate_rejects_duplicate_subscriber_ids() {
    let cfg = config(vec![with_env("a", "https://x/y", "S1"), with_env("a", "https://z/w", "S2")]);
    let err = err(cfg, vec![env("x"), env("x")]);
    assert!(err.contains("duplicate"), "err: {err}");
}

#[test]
fn validate_resolves_secret_env() {
    let resolved = ok(config(vec![with_env("a", "https://x/y", "N")]), vec![env("supersecret")]);
    assert_eq!(secret(&resolved, "a"), b"supersecret");
}

#[test]
fn validate_resolves_secret_file() {
    let mut s = subscriber("a", "https://x/y");
    s.secret_file = Some("/run/secret".into());
    let reads = SecretReads { env: None, file: Ok(b"file-secret\n".to_vec()) };
    let resolved = ok(config(vec![s]), vec![reads]);
    assert_eq!(secret(&resolved, "a"), b"file-secret");
}

#[test]
fn validate_rejects_empty_secret_env() {
    let err = err(config(vec![with_env("a", "https://x/y", "N")]), vec![env("")]);
    assert!(err.contains("empty"), "err: {err}");
}

#[test]
fn validate_rejects_unreadable_secrets() {
    let e = err(config(vec![with_env("a", "https://x/y", "N")]), vec![nothing()]);
    assert!(e.contains("N"), "err: {e}");
    let mut s = subscriber("a", "https://x/y");
    s.secret_file = Some("/run/secret".into());
    let e = err(config(vec![s]), vec![nothing()]);
    assert!(e.contains("no such file"), "err: {e}");
    let mut s = subscriber("a", "https://x/y");
    s.secret_file = Some("/run/secret".into());
    let reads = SecretReads { env: None, file: Ok(b"\n".to_vec()) };
    let e = err(config(vec![s]), vec![reads]);
    assert!(e.contains("empty"), "err: {e}");
}

#[test]
fn validate_rejects_zero_max_attempts() {
    let mut s = with_env("a", "https://x/y", "N");
    s.retry.max_attempts = 0;
    let err = err(config(vec![s]), vec![env("x")]);
    assert!(err.contains("max_attempts"), "err: {err}");
}

#[test]
fn validate_rejects_base_delay_over_max_delay() {
    let mut s = with_env("a", "https://x/y", "N");
    s.retry = RetryConfig { base_delay_ms: 10000, max_delay_ms: 1000, ..RetryConfig::default() };
    let err = err(config(vec![s]), vec![env("x")]);
    assert!(err.contains("base_delay_ms"), "err: {err}");
}

#[test]
fn validate_fills_instance_id_when_omitted() {
    let resolved = ok(config(vec![with_env("a", "https://x/y", "N")]), vec![env("x")]);
    assert!(!resolved.instance_id.is_empty());
}

#[test]
fn instance_id_is_chosen_in_order() {
    let id_with = |given: Option<&str>, machine: Option<&str>| {
        let mut cfg = config(vec![]);
        cfg.relay.instance_id = given.map(|s| s.to_string());
        validate_with(cfg, &vec![], &no_token(), machine.map(|s| s.to_string())).unwrap().instance_id
    };
    assert_eq!(id_with(Some("r1"), Some("host")), "r1");
    assert_eq!(id_with(None, Some("host")), "host");
    assert_eq!(id_with(None, None), "purple-wolf-relay");
}

#[test]
fn severity_orders_low_to_critical() {
    assert!(Severity::Low < Severity::Medium);
    assert!(Severity::Medium < Severity::High);
    assert!(Severity::High < Severity::Critical);
}

#[test]
fn subscriber_filter_defaults_to_empty() {
    let f = SubscriberFilter::default();
    assert!(f.labels.is_empty());
    assert!(f.severity_min.is_none());
    assert!(f.blocked_rule_pattern.is_none());
}

#[test]
fn enabled_subscribers_are_found() {
    assert!(!any_enabled(&vec![]));
    let mut s = subscriber("a", "https://x/y");
    s.enabled = false;
    assert!(!any_enabled(&vec![s]));
    assert!(any_enabled(&vec![subscriber("a", "https://x/y")]));
}
