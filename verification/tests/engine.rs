//! The engine, the clock and the group settings.
use purple_wolf::clock::{nanoseconds, Clock, SystemClock};
use purple_wolf::config::{GroupConfig, GroupMode, Groups};
use purple_wolf::detectors::injection::InjectionDetector;
use purple_wolf::detectors::structural::StructuralDetector;
use purple_wolf::detectors::{BuiltDetector, Engine, Group};
use purple_wolf::ip::IpAddr;
use purple_wolf::request::{Findings, Request};

/// A request that the injection detector and the structural one both report.
fn req() -> Request {
    let ip: IpAddr = "1.2.3.4".parse().unwrap();
    Request::build("TRACE", "h", "/", "q=1", vec![], vec![], false, ip).with_findings(Findings {
        sqli: vec![true],
        xss: vec![],
        suffix_sqli: vec![],
    })
}

#[test]
fn mod_engine_runs_only_enabled_groups() {
    let mut engine = Engine::new(vec![
        BuiltDetector::Injection(InjectionDetector),
        BuiltDetector::Structure(StructuralDetector),
    ]);
    let verdicts = engine.inspect(&req(), &[Group::Injection]);
    assert_eq!(verdicts.len(), 1);
    assert_eq!(verdicts[0].group, Group::Injection);
}

#[test]
fn engine_keeps_the_order_of_its_detectors() {
    let mut engine = Engine::new(vec![
        BuiltDetector::Structure(StructuralDetector),
        BuiltDetector::Injection(InjectionDetector),
    ]);
    let verdicts = engine.inspect(&req(), &[Group::Injection, Group::Structure]);
    assert_eq!(verdicts.len(), 2);
    assert_eq!(verdicts[0].group, Group::Structure);
    assert_eq!(verdicts[1].group, Group::Injection);
    assert!(engine.inspect(&req(), &[]).is_empty());
}

#[test]
fn engine_takes_one_kind_of_detector() {
    let mut engine = Engine::new(vec![StructuralDetector]);
    let verdicts = engine.inspect(&req(), &[Group::Structure]);
    assert_eq!(verdicts.len(), 1);
    assert_eq!(verdicts[0].rule, "method_not_allowed");
    assert_eq!(verdicts[0].group.as_str(), "structural");
}

#[test]
fn system_clock_is_monotonic() {
    let c = SystemClock::new();
    let a = c.now();
    let b = c.now();
    assert!(b >= a);
}

#[test]
fn readings_stop_at_the_largest_number() {
    assert_eq!(nanoseconds(0), 0);
    assert_eq!(nanoseconds(u128::from(u64::MAX)), u64::MAX);
    assert_eq!(nanoseconds(u128::from(u64::MAX) + 1), u64::MAX);
}

#[test]
fn groups_all_monitor_enables_every_detector_in_monitor_mode() {
    let g = Groups::all_monitor();
    for slot in [&g.injection, &g.signatures, &g.structural, &g.reputation] {
        let gc = slot
            .as_ref()
            .expect("every group must be Some in the fallback");
        assert!(gc.enabled, "every group must be enabled");
        assert_eq!(gc.mode, GroupMode::Monitor);
    }
}

#[test]
fn a_group_that_is_absent_or_disabled_is_off() {
    let g = Groups {
        injection: Some(GroupConfig { enabled: true, mode: GroupMode::Enforce }),
        signatures: Some(GroupConfig { enabled: false, mode: GroupMode::Enforce }),
        structural: None,
        reputation: Some(GroupConfig { enabled: true, mode: GroupMode::Off }),
    };
    assert_eq!(g.effective_mode_of(Group::Injection), GroupMode::Enforce);
    assert_eq!(g.effective_mode_of(Group::Signatures), GroupMode::Off);
    assert_eq!(g.effective_mode_of(Group::Structure), GroupMode::Off);
    assert_eq!(g.effective_mode_of(Group::Reputation), GroupMode::Off);
}

#[test]
fn addresses_are_written_as_they_are_read() {
    for s in ["127.0.0.1", "::1", "::", "2001:db8::1", "::ffff:1.2.3.4", "1:2:3:4:5:6:7:8", "fe80::1:0:0:1"] {
        let a: IpAddr = s.parse().unwrap();
        assert_eq!(a.to_text(), s);
    }
    for s in ["", "1.2.3", "01.2.3.4", "256.1.1.1", "1::2::3", "12345::", "1.2.3.4.5"] {
        assert!(s.parse::<IpAddr>().is_err(), "{s}");
    }
}
