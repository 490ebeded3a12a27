//! Audit entries and log lines.
use purple_wolf::audit::{scrub_label_value, to_log_line, AuditEntry};
use purple_wolf::detectors::{Group, Severity, Verdict};
use purple_wolf::ip::IpAddr;
use purple_wolf::labels::Labels;
use purple_wolf::policy::{Action, Decision};
use purple_wolf::request::Request;

fn req() -> Request {
    Request::build(
        "GET",
        "Host",
        "/p",
        "",
        vec![],
        vec![],
        false,
        "1.2.3.4".parse::<IpAddr>().unwrap(),
    )
}

fn req_with_query(q: &str) -> Request {
    Request::build(
        "GET",
        "Host",
        "/p",
        q,
        vec![],
        vec![],
        false,
        "1.2.3.4".parse::<IpAddr>().unwrap(),
    )
}

#[test]
fn audit_audit_entry_records_block() {
    let decision = Decision {
        action: Action::Block,
        blocked_by: Some(Verdict {
            group: Group::Injection,
            rule: "sqli",
            severity: Severity::Critical,
            detail: "d".into(),
        }),
        would_block: vec![],
    };
    let entry = AuditEntry::from(&req(), &decision);
    assert_eq!(entry.action, "block");
    assert_eq!(entry.blocked_rule.as_deref(), Some("injection/sqli"));
    assert_eq!(entry.blocked_severity.as_deref(), Some("critical"));
    assert_eq!(entry.blocked_detail.as_deref(), Some("d"));
    assert_eq!(entry.query, None);
    assert!(entry.is_noteworthy());
}

#[test]
fn audit_audit_entry_preserves_raw_query() {
    let decision = Decision {
        action: Action::Block,
        blocked_by: Some(Verdict {
            group: Group::Injection,
            rule: "sqli",
            severity: Severity::High,
            detail: "payload in q".into(),
        }),
        would_block: vec![],
    };
    let entry = AuditEntry::from(&req_with_query("q=%27%20OR%201%3D1"), &decision);
    assert_eq!(entry.query.as_deref(), Some("q=%27%20OR%201%3D1"));
    assert_eq!(entry.blocked_severity.as_deref(), Some("high"));
    assert_eq!(entry.blocked_detail.as_deref(), Some("payload in q"));
}

#[test]
fn audit_clean_request_is_not_noteworthy() {
    let decision = Decision {
        action: Action::Allow,
        blocked_by: None,
        would_block: vec![],
    };
    let entry = AuditEntry::from(&req(), &decision);
    assert!(!entry.is_noteworthy());
    assert_eq!(entry.blocked_severity, None);
    assert_eq!(entry.blocked_detail, None);
    assert!(entry.labels.is_empty());
}

fn block_decision() -> Decision {
    Decision {
        action: Action::Block,
        blocked_by: Some(Verdict {
            group: Group::Injection,
            rule: "sqli",
            severity: Severity::Critical,
            detail: "d".into(),
        }),
        would_block: vec![],
    }
}

#[test]
fn audit_entry_includes_labels_when_present() {
    let labels = Labels::from_pairs(vec![
        ("tenant".into(), "acme".into()),
        ("service".into(), "checkout".into()),
    ]);
    let entry = AuditEntry::from_with_labels(&req(), &block_decision(), &labels);
    let json = to_log_line(&entry);
    assert!(
        json.contains(r#""labels":{"service":"checkout","tenant":"acme"}"#),
        "json: {json}"
    );
}

#[test]
fn audit_entry_omits_labels_field_when_empty_for_v02_backcompat() {
    let entry = AuditEntry::from_with_labels(
        &req(),
        &block_decision(),
        &Labels::new(),
    );
    let json = to_log_line(&entry);
    assert!(
        !json.contains("\"labels\""),
        "expected no labels field in {json}"
    );
}

#[test]
fn audit_entry_scrubs_control_chars_in_label_values() {
    let labels = Labels::from_pairs(vec![(
        "note".into(),
        "line1\r\n\"injected\":true,".into(),
    )]);
    let entry = AuditEntry::from_with_labels(&req(), &block_decision(), &labels);
    let json = to_log_line(&entry);
    assert!(!json.contains('\r'), "CR must be scrubbed: {json}");
    assert!(!json.contains('\n'), "LF must be scrubbed: {json}");
    let entry_v = entry.labels.get("note").unwrap();
    assert!(entry_v.starts_with("line1.."), "scrubbed value: {entry_v}");
}

#[test]
fn audit_entry_scrubs_del_char_in_label_values() {
    let labels = Labels::from_pairs(vec![("k".into(), "a\x7fb".into())]);
    let entry = AuditEntry::from_with_labels(&req(), &block_decision(), &labels);
    assert_eq!(entry.labels.get("k"), Some("a.b"));
}

#[test]
fn audit_marks_body_truncated_when_request_body_was_truncated() {
    let truncated_req = Request::build(
        "POST",
        "Host",
        "/p",
        "",
        vec![],
        b"prefix".to_vec(),
        true,
        "1.2.3.4".parse::<IpAddr>().unwrap(),
    )
    .with_truncated_body(true);
    let entry = AuditEntry::from(&truncated_req, &block_decision());
    assert!(entry.body_truncated, "entry must carry body_truncated");
    let json = to_log_line(&entry);
    assert!(
        json.contains(r#""body_truncated":true"#),
        "json must include body_truncated when set: {json}"
    );
}

#[test]
fn audit_omits_body_truncated_when_false_for_v02_backcompat() {
    let entry = AuditEntry::from(&req(), &block_decision());
    assert!(!entry.body_truncated);
    let json = to_log_line(&entry);
    assert!(
        !json.contains("body_truncated"),
        "field must be omitted when false: {json}"
    );
}

#[test]
fn log_line_is_valid_json_on_one_line() {
    let labels = Labels::from_pairs(vec![("note".into(), "a\nb".into())]);
    let entry = AuditEntry::from_with_labels(&req_with_query("q=\"x\""), &block_decision(), &labels);
    let line = to_log_line(&entry);
    assert!(!line.contains('\n'));
    let value: serde_json::Value = serde_json::from_str(&line).unwrap();
    assert_eq!(value["action"], "block");
    assert_eq!(value["query"], "q=\"x\"");
    assert_eq!(value["labels"]["note"], "a.b");
    assert_eq!(value["would_block_rules"].as_array().unwrap().len(), 0);
}

#[test]
fn label_values_lose_their_control_characters() {
    assert_eq!(scrub_label_value("a\r\n\u{7f}é"), "a...é");
}
