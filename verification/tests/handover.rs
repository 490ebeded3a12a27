//! From the guest's log to the relay.
use purple_wolf::audit::{to_log_line, AuditEntry};
use purple_wolf::detectors::{Group, Severity, Verdict};
use purple_wolf::ip::IpAddr;
use purple_wolf::labels::Labels;
use purple_wolf::policy::{Action, Decision};
use purple_wolf::relay::parser::parse_line;
use purple_wolf::relay::pipeline::{envelope_of_line, labels_of};
use purple_wolf::request::Request;

fn entry(path: &str, detail: &str, label: &str) -> AuditEntry {
    let ip: IpAddr = "203.0.113.7".parse().unwrap();
    let req = Request::build("GET", "shop.example", path, "q=%7B", vec![], vec![], false, ip)
        .with_truncated_body(true);
    let decision = Decision {
        action: Action::Block,
        blocked_by: Some(Verdict {
            group: Group::Injection,
            rule: "sqli",
            severity: Severity::Critical,
            detail: detail.into(),
        }),
        would_block: vec![],
    };
    let labels = Labels::from_pairs(vec![("tenant".into(), label.into())]);
    AuditEntry::from_with_labels(&req, &decision, &labels)
}

#[test]
fn what_the_guest_logs_the_relay_reads() {
    for detail in ["plain", "}{\"\\", "\u{1b}[31m\r\n", "\"}", "é\u{7f}"] {
        let e = entry("/a\"}{", detail, "acme}");
        let line = format!(
            "\u{1b}[90m2026-01-01\u{1b}[0m INF {} entryPointName=web middlewareName=waf@file",
            to_log_line(&e)
        );
        let p = match parse_line(line.as_bytes()) {
            Ok(p) => p,
            Err(err) => panic!("{detail:?}: {}", err.message()),
        };
        assert_eq!(p.event.get_text("host"), Some("shop.example"));
        assert_eq!(p.event.get_text("path"), Some("/a\"}{"));
        assert_eq!(p.event.get_text("blocked_detail"), Some(detail));
        assert_eq!(p.event.get_text("blocked_rule"), Some("injection/sqli"));
        assert_eq!(p.middleware.as_deref(), Some("waf"));
        assert_eq!(p.entry_point.as_deref(), Some("web"));
        assert_eq!(labels_of(&p.event).get("tenant"), Some("acme}"));
    }
}

#[test]
fn the_event_is_delivered_as_it_was_logged() {
    let line = to_log_line(&entry("/p", "d", "acme"));
    let envelope = match envelope_of_line(line.as_bytes(), "r1") {
        Ok(e) => e,
        Err(_) => panic!("expected an envelope"),
    };
    let sent: serde_json::Value = serde_json::from_str(&envelope.to_json()).unwrap();
    let logged: serde_json::Value = serde_json::from_str(&line).unwrap();
    assert_eq!(sent["event"], logged);
    assert_eq!(sent["labels"]["tenant"], "acme");
}

#[test]
fn different_entries_have_different_lines() {
    let lines: Vec<String> = [("a", "b"), ("a\",\"x\":\"b", ""), ("", "a\",\"x\":\"b"), ("ab", "")]
        .iter()
        .map(|(path, detail)| to_log_line(&entry(path, detail, "l")))
        .collect();
    for i in 0..lines.len() {
        for j in 0..i {
            assert_ne!(lines[i], lines[j]);
        }
    }
}
