//! From verdicts to a decision.
use purple_wolf::config::{GroupMode, Mode};
use purple_wolf::detectors::{Group, Severity, Verdict};
use purple_wolf::policy::{decide, Action};

fn verdict(group: Group) -> Verdict {
    Verdict {
        group,
        rule: "t",
        severity: Severity::High,
        detail: "d".into(),
    }
}

#[test]
fn blocks_when_global_and_group_enforce() {
    let d = decide(vec![verdict(Group::Injection)], Mode::Enforce, |_| {
        GroupMode::Enforce
    });
    assert_eq!(d.action, Action::Block);
    assert!(d.blocked_by.is_some());
}

#[test]
fn monitor_global_never_blocks() {
    let d = decide(vec![verdict(Group::Injection)], Mode::Monitor, |_| {
        GroupMode::Enforce
    });
    assert_eq!(d.action, Action::Allow);
    assert_eq!(d.would_block.len(), 1);
}

#[test]
fn group_mode_off_is_ignored() {
    let d = decide(vec![verdict(Group::Injection)], Mode::Enforce, |_| {
        GroupMode::Off
    });
    assert_eq!(d.action, Action::Allow);
    assert!(d.would_block.is_empty());
}

fn verdict_sev(group: Group, sev: Severity, rule: &'static str) -> Verdict {
    Verdict {
        group,
        rule,
        severity: sev,
        detail: "d".into(),
    }
}

#[test]
fn highest_severity_verdict_wins_blocked_by() {
    let verdicts = vec![
        verdict_sev(Group::Signatures, Severity::Medium, "scanner_ua"),
        verdict_sev(Group::Injection, Severity::Critical, "sqli"),
    ];
    let d = decide(verdicts, Mode::Enforce, |_| GroupMode::Enforce);
    assert_eq!(d.action, Action::Block);
    let chosen = d.blocked_by.expect("must block");
    assert_eq!(chosen.rule, "sqli");
    assert_eq!(chosen.severity, Severity::Critical);
    assert_eq!(d.would_block.len(), 1);
    assert_eq!(d.would_block[0].rule, "scanner_ua");
}

#[test]
fn ties_break_in_first_iteration_order() {
    let verdicts = vec![
        verdict_sev(Group::Injection, Severity::Critical, "sqli"),
        verdict_sev(Group::Signatures, Severity::Critical, "lfi"),
    ];
    let d = decide(verdicts, Mode::Enforce, |_| GroupMode::Enforce);
    let chosen = d.blocked_by.expect("must block");
    assert_eq!(chosen.rule, "sqli");
}

#[test]
fn monitor_verdicts_never_promoted_even_if_more_severe() {
    let verdicts = vec![
        verdict_sev(Group::Injection, Severity::Critical, "sqli"),
        verdict_sev(Group::Signatures, Severity::Medium, "scanner_ua"),
    ];
    let d = decide(verdicts, Mode::Enforce, |g| match g {
        Group::Injection => GroupMode::Monitor,
        _ => GroupMode::Enforce,
    });
    let chosen = d.blocked_by.expect("must block");
    assert_eq!(chosen.rule, "scanner_ua");
    assert!(d
        .would_block
        .iter()
        .any(|v| v.rule == "sqli" && v.severity == Severity::Critical));
}
