//! Which envelopes a subscriber gets.
use purple_wolf::labels::Labels;
use purple_wolf::relay::config::{Severity, SubscriberFilter};
use purple_wolf::relay::envelope::{Envelope, EnvelopeSource};
use purple_wolf::relay::event::AuditEvent;
use purple_wolf::relay::subscribers::filter::{CompiledFilter, Glob};

fn event(json: &str) -> AuditEvent {
    AuditEvent::parse(json).unwrap()
}

fn env_with(labels: Labels, event: AuditEvent) -> Envelope {
    Envelope::new(
        event,
        EnvelopeSource {
            middleware: None,
            router: None,
            entry_point: None,
            relay_instance: "r1".into(),
        },
        labels,
    )
}

fn block_event(rule: &str, severity: &str) -> AuditEvent {
    event(&format!(r#"{{"action":"block","blocked_rule":"{rule}","blocked_severity":"{severity}","would_block_rules":[]}}"#))
}

#[test]
fn empty_filter_matches_everything() {
    let f = CompiledFilter::compile(&SubscriberFilter::default());
    let env = env_with(Labels::new(), event("{}"));
    assert!(f.matches(&env));
}

#[test]
fn labels_filter_requires_subset_match() {
    let f = CompiledFilter::compile(&SubscriberFilter {
        labels: Labels::from_pairs(vec![("tenant".into(), "acme".into())]),
        ..Default::default()
    });
    let env = env_with(
        Labels::from_pairs(vec![
            ("tenant".into(), "acme".into()),
            ("region".into(), "us-east-1".into()),
        ]),
        event("{}"),
    );
    assert!(f.matches(&env));
    let env = env_with(
        Labels::from_pairs(vec![("tenant".into(), "contoso".into())]),
        event("{}"),
    );
    assert!(!f.matches(&env));
    let env = env_with(Labels::new(), event("{}"));
    assert!(!f.matches(&env));
}

#[test]
fn severity_filter_rejects_below_floor() {
    let f = CompiledFilter::compile(&SubscriberFilter {
        severity_min: Some(Severity::High),
        ..Default::default()
    });
    assert!(!f.matches(&env_with(
        Labels::new(),
        block_event("injection/sqli", "medium")
    )));
    assert!(f.matches(&env_with(
        Labels::new(),
        block_event("injection/sqli", "high")
    )));
    assert!(f.matches(&env_with(
        Labels::new(),
        block_event("injection/sqli", "critical")
    )));
}

#[test]
fn severity_filter_rejects_when_severity_missing() {
    let f = CompiledFilter::compile(&SubscriberFilter {
        severity_min: Some(Severity::Low),
        ..Default::default()
    });
    let env = env_with(
        Labels::new(),
        event(r#"{"action": "allow", "would_block_rules": []}"#),
    );
    assert!(!f.matches(&env));
}

#[test]
fn rule_pattern_matches_blocked_rule() {
    let f = CompiledFilter::compile(&SubscriberFilter {
        blocked_rule_pattern: Some("injection/*".into()),
        ..Default::default()
    });
    assert!(f.matches(&env_with(
        Labels::new(),
        block_event("injection/sqli", "high")
    )));
    assert!(!f.matches(&env_with(
        Labels::new(),
        block_event("reputation/deny", "high")
    )));
}

#[test]
fn rule_pattern_falls_back_to_would_block_rules() {
    let f = CompiledFilter::compile(&SubscriberFilter {
        blocked_rule_pattern: Some("injection/*".into()),
        ..Default::default()
    });
    let env = env_with(
        Labels::new(),
        event(r#"{"action": "allow", "would_block_rules": ["injection/sqli", "structural/header"]}"#),
    );
    assert!(f.matches(&env));
}

#[test]
fn all_clauses_must_match() {
    let f = CompiledFilter::compile(&SubscriberFilter {
        labels: Labels::from_pairs(vec![("tenant".into(), "acme".into())]),
        severity_min: Some(Severity::Critical),
        blocked_rule_pattern: Some("injection/*".into()),
    });
    assert!(f.matches(&env_with(
        Labels::from_pairs(vec![("tenant".into(), "acme".into())]),
        block_event("injection/sqli", "critical")
    )));
    assert!(!f.matches(&env_with(
        Labels::from_pairs(vec![("tenant".into(), "contoso".into())]),
        block_event("injection/sqli", "critical")
    )));
    assert!(!f.matches(&env_with(
        Labels::from_pairs(vec![("tenant".into(), "acme".into())]),
        block_event("injection/sqli", "high")
    )));
    assert!(!f.matches(&env_with(
        Labels::from_pairs(vec![("tenant".into(), "acme".into())]),
        block_event("structural/header", "critical")
    )));
}

#[test]
fn glob_anchored_prefix() {
    let g = Glob::new("injection/*");
    assert!(g.matches("injection/sqli"));
    assert!(g.matches("injection/xss"));
    assert!(!g.matches("structural/header"));
    assert!(!g.matches("noinjection/x"));
}

#[test]
fn glob_anchored_suffix() {
    let g = Glob::new("*/sqli");
    assert!(g.matches("injection/sqli"));
    assert!(g.matches("signatures/sqli"));
    assert!(!g.matches("injection/xss"));
}

#[test]
fn glob_anchored_middle() {
    let g = Glob::new("*sqli*");
    assert!(g.matches("injection/sqli"));
    assert!(g.matches("xsqlix"));
    assert!(!g.matches("xss"));
}

#[test]
fn glob_exact() {
    let g = Glob::new("injection/sqli");
    assert!(g.matches("injection/sqli"));
    assert!(!g.matches("injection/sqlix"));
    assert!(!g.matches("xinjection/sqli"));
}

#[test]
fn glob_all_wildcards() {
    let g = Glob::new("*");
    assert!(g.matches(""));
    assert!(g.matches("anything"));
}

#[test]
fn glob_suffix_is_found_behind_an_earlier_occurrence() {
    assert!(Glob::new("*a").matches("aba"));
    assert!(Glob::new("*ab*ab").matches("abxabab"));
    assert!(!Glob::new("*ab*ab").matches("ab"));
    assert!(Glob::new("").matches("anything"));
    assert!(Glob::new("a*").matches("a"));
    assert!(!Glob::new("a").matches("aa"));
    assert!(Glob::new("**").matches(""));
}

#[test]
fn added_labels_keep_a_match() {
    let f = CompiledFilter::compile(&SubscriberFilter {
        labels: Labels::from_pairs(vec![("a".into(), "1".into())]),
        ..Default::default()
    });
    let more = Labels::from_pairs(vec![("a".into(), "1".into()), ("b".into(), "2".into())]);
    assert!(f.matches(&env_with(more, event("{}"))));
}
