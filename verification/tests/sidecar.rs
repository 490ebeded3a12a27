//! The proxy: its rules, its requests and what it does with them.
use purple_wolf::config::{BodyConfig, FailMode, GroupConfig, GroupMode, Groups, Mode, OverCap};
use purple_wolf::detectors::{Group, Severity, Verdict};
use purple_wolf::ip::IpAddr;
use purple_wolf::policy::{Action, Decision};
use purple_wolf::sidecar::config::{Config, Override};
use purple_wolf::sidecar::observe::{group_hits, AuditEntry};
use purple_wolf::sidecar::proxy::{
    client_ip, forward_url, forwarded_headers, handle, is_hop_by_hop, take_body, BodyPrefix,
    BodyRead, Route,
};
use purple_wolf::sidecar::request_model::RequestView;
use purple_wolf::sidecar::rules::Rules;

fn ip() -> IpAddr {
    "1.2.3.4".parse().unwrap()
}

fn config() -> Config {
    Config {
        mode: Mode::Enforce,
        fail_mode: FailMode::FailOpen,
        body: BodyConfig { max_inspect_bytes: 1024, over_cap: OverCap::Pass },
        groups: Groups {
            injection: Some(GroupConfig { enabled: true, mode: GroupMode::Enforce }),
            signatures: None,
            structural: None,
            reputation: Some(GroupConfig { enabled: false, mode: GroupMode::Monitor }),
        },
        overrides: vec![],
        upstream: "http://127.0.0.1:3000".into(),
        listen: "0.0.0.0:8080".into(),
    }
}

fn rules() -> Rules {
    Rules::new(config(), "x.toml".into())
}

// --- rules -----------------------------------------------------------------

#[test]
fn disabled_group_resolves_to_off() {
    let cfg = config();
    let rules = rules();
    assert_eq!(rules.group_mode(&cfg, Group::Reputation, "h", "/"), GroupMode::Off);
    assert_eq!(rules.group_mode(&cfg, Group::Injection, "h", "/"), GroupMode::Enforce);
}

#[test]
fn override_disables_group_for_matching_path() {
    let mut cfg = config();
    cfg.overrides.push(Override {
        host: Some("api.x".into()),
        path_prefix: Some("/hooks/".into()),
        disable_groups: vec!["injection".into()],
    });
    let rules = rules();
    assert_eq!(
        rules.group_mode(&cfg, Group::Injection, "api.x", "/hooks/stripe"),
        GroupMode::Off
    );
    assert_eq!(rules.group_mode(&cfg, Group::Injection, "api.x", "/other"), GroupMode::Enforce);
    assert_eq!(rules.group_mode(&cfg, Group::Injection, "b.x", "/hooks/a"), GroupMode::Enforce);
}

#[test]
fn enabled_groups_excludes_off() {
    let cfg = config();
    let groups = rules().enabled_groups(&cfg, "h", "/");
    assert!(groups.contains(&Group::Injection));
    assert!(!groups.contains(&Group::Reputation));
}

#[test]
fn reload_picks_up_valid_change() {
    let mut rules = rules();
    assert_eq!(rules.current().mode, Mode::Enforce);
    let mut changed = config();
    changed.mode = Mode::Monitor;
    rules.reload(Ok(changed)).expect("valid config should reload");
    assert_eq!(rules.current().mode, Mode::Monitor);
    assert_eq!(rules.path(), "x.toml");
}

#[test]
fn reload_keeps_old_config_on_parse_error() {
    let mut rules = rules();
    let result = rules.reload(Err("expected `=`".into()));
    assert_eq!(result, Err("expected `=`".to_string()), "bad config must produce an error");
    assert_eq!(
        rules.current().mode,
        Mode::Enforce,
        "old config must be retained after a failed reload"
    );
}

// --- requests --------------------------------------------------------------

#[test]
fn request_model_decodes_query_params() {
    let v = RequestView::build(
        "get",
        "Example.COM",
        "/search",
        "q=%27%20OR%201%3D1",
        vec![],
        vec![],
        false,
        ip(),
    );
    assert_eq!(v.method, "GET");
    assert_eq!(v.host, "example.com");
    assert_eq!(v.query_params, vec![("q".to_string(), "' OR 1=1".to_string())]);
}

#[test]
fn request_model_inspectable_fields_skips_uninspected_body() {
    let v = RequestView::build(
        "POST",
        "h",
        "/p",
        "a=1",
        vec![],
        b"payload".to_vec(),
        false,
        ip(),
    );
    assert!(!v.inspectable_fields().contains(&"payload"));
    let v2 = RequestView::build(
        "POST",
        "h",
        "/p",
        "a=1",
        vec![],
        b"payload".to_vec(),
        true,
        ip(),
    );
    assert!(v2.inspectable_fields().contains(&"payload"));
}

#[test]
fn request_model_header_lookup_is_case_insensitive() {
    let v = RequestView::build(
        "GET",
        "h",
        "/",
        "",
        vec![("User-Agent".to_string(), "curl".to_string())],
        vec![],
        false,
        ip(),
    );
    assert_eq!(v.header("user-agent"), Some("curl"));
}

#[test]
fn the_detectors_scan_what_the_view_shows() {
    let v = RequestView::build(
        "POST",
        "h",
        "/p",
        "a=1&b=%2541",
        vec![],
        vec![b'x', 0xff],
        true,
        ip(),
    );
    let shown: Vec<Vec<u8>> =
        v.inspectable_fields().iter().map(|s| s.as_bytes().to_vec()).collect();
    let request = v.to_request();
    let scanned: Vec<Vec<u8>> = request.inspectable_fields().iter().map(|b| b.to_vec()).collect();
    assert_eq!(shown, scanned);
    assert_eq!(v.query_params[1].1, "%41", "decoded once");
}

// --- observation -----------------------------------------------------------

fn req_with_query(q: &str) -> RequestView {
    RequestView::build("GET", "Host", "/p", q, vec![], vec![], false, ip())
}

fn verdict(severity: Severity, detail: &str) -> Verdict {
    Verdict { group: Group::Injection, rule: "sqli", severity, detail: detail.into() }
}

#[test]
fn observe_audit_entry_records_block() {
    let decision = Decision {
        action: Action::Block,
        blocked_by: Some(verdict(Severity::Critical, "d")),
        would_block: vec![],
    };
    let entry = AuditEntry::from(&req_with_query(""), &decision);
    assert_eq!(entry.action, "block");
    assert_eq!(entry.blocked_rule.as_deref(), Some("injection/sqli"));
    assert_eq!(entry.blocked_severity.as_deref(), Some("critical"));
    assert_eq!(entry.blocked_detail.as_deref(), Some("d"));
    assert_eq!(entry.query, None);
    assert!(entry.is_noteworthy());
}

#[test]
fn observe_audit_entry_preserves_raw_query() {
    let decision = Decision {
        action: Action::Block,
        blocked_by: Some(verdict(Severity::High, "payload in q")),
        would_block: vec![],
    };
    let entry = AuditEntry::from(&req_with_query("q=%27%20OR%201%3D1"), &decision);
    assert_eq!(entry.query.as_deref(), Some("q=%27%20OR%201%3D1"));
    assert_eq!(entry.blocked_severity.as_deref(), Some("high"));
    assert_eq!(entry.blocked_detail.as_deref(), Some("payload in q"));
}

#[test]
fn observe_clean_request_is_not_noteworthy() {
    let decision = Decision { action: Action::Allow, blocked_by: None, would_block: vec![] };
    let entry = AuditEntry::from(&req_with_query(""), &decision);
    assert!(!entry.is_noteworthy());
    assert_eq!(entry.blocked_severity, None);
    assert_eq!(entry.blocked_detail, None);
}

#[test]
fn every_hit_is_counted() {
    let decision = Decision {
        action: Action::Block,
        blocked_by: Some(verdict(Severity::High, "a")),
        would_block: vec![verdict(Severity::High, "b"), verdict(Severity::High, "c")],
    };
    assert_eq!(group_hits(&decision), vec![Group::Injection; 3]);
}

// --- the proxy -------------------------------------------------------------

fn peer() -> IpAddr {
    "127.0.0.1".parse().unwrap()
}

#[test]
fn client_ip_uses_xff_single() {
    assert_eq!(
        client_ip(Some("203.0.113.7"), None, peer()),
        "203.0.113.7".parse::<IpAddr>().unwrap()
    );
}

#[test]
fn client_ip_uses_xff_leftmost_parseable_with_spaces() {
    assert_eq!(
        client_ip(Some(" 203.0.113.7 , 10.0.0.1 , 10.0.0.2"), None, peer()),
        "203.0.113.7".parse::<IpAddr>().unwrap()
    );
}

#[test]
fn client_ip_falls_through_xff_garbage_to_next_valid() {
    assert_eq!(
        client_ip(Some("not-an-ip, 198.51.100.5"), None, peer()),
        "198.51.100.5".parse::<IpAddr>().unwrap()
    );
}

#[test]
fn client_ip_uses_x_real_ip_when_no_xff() {
    assert_eq!(
        client_ip(None, Some("198.51.100.9"), peer()),
        "198.51.100.9".parse::<IpAddr>().unwrap()
    );
}

#[test]
fn client_ip_falls_back_to_peer_when_no_headers() {
    assert_eq!(client_ip(None, None, peer()), peer());
}

#[test]
fn proxy_client_ip_falls_back_to_peer_when_both_unparseable() {
    assert_eq!(client_ip(Some("not-an-ip"), Some("also-not"), peer()), peer());
}

#[test]
fn under_cap_is_buffered() {
    let mut p = BodyPrefix::new(100);
    assert!(!p.read_body(&[0u8; 10]));
    assert_eq!(p.bytes.len(), 10);
}

#[test]
fn exactly_at_cap_is_buffered() {
    let mut p = BodyPrefix::new(100);
    assert!(!p.read_body(&[0u8; 100]), "expected Buffered at exactly the cap");
    assert_eq!(p.bytes.len(), 100);
}

#[test]
fn over_cap_is_classified_and_reconstructs_full_body() {
    let chunks = [vec![0u8; 90], vec![0u8; 90], vec![0u8; 70]];
    let mut p = BodyPrefix::new(100);
    let mut read = 0;
    while !p.read_body(&chunks[read]) {
        read += 1;
    }
    read += 1;
    assert!(p.bytes.len() > 100, "prefix must exceed the cap");
    let mut total = p.bytes.len();
    for rest in &chunks[read..] {
        total += rest.len();
    }
    assert_eq!(total, 250);
}

#[test]
fn bodies_decide_as_configured() {
    let mut cfg = config();
    let got = take_body(&cfg, BodyRead::Buffered(b"ab".to_vec())).unwrap();
    assert!(got.complete && got.bytes == b"ab");
    let got = take_body(&cfg, BodyRead::OverCap).unwrap();
    assert!(!got.complete && got.bytes.is_empty());
    assert_eq!(take_body(&cfg, BodyRead::Error).unwrap_err().status, 502);
    cfg.fail_mode = FailMode::FailClosed;
    cfg.body.over_cap = OverCap::Block;
    assert_eq!(
        take_body(&cfg, BodyRead::OverCap).unwrap_err().reason,
        "body exceeds inspection cap"
    );
    assert_eq!(take_body(&cfg, BodyRead::Error).unwrap_err().status, 403);
}

#[test]
fn verdicts_are_acted_upon() {
    let mut cfg = config();
    let view = req_with_query("");
    let hit = || Some(vec![verdict(Severity::High, "d")]);

    let h = handle(&rules(), &cfg, &view, hit());
    match h.route {
        Route::Refuse(r) => assert_eq!((r.status, r.reason), (403, "request blocked by purple-wolf")),
        Route::Forward => panic!("expected a refusal"),
    }
    assert_eq!(h.audit.map(|a| a.action), Some("block".to_string()));
    assert_eq!(h.hits, Some((Action::Block, vec![Group::Injection])));

    cfg.mode = Mode::Monitor;
    let h = handle(&rules(), &cfg, &view, hit());
    assert_eq!(h.route, Route::Forward);
    assert!(h.audit.is_some());

    let h = handle(&rules(), &cfg, &view, Some(vec![]));
    assert_eq!(h.route, Route::Forward);
    assert!(h.audit.is_none());
}

#[test]
fn a_broken_inspection_follows_the_fail_mode() {
    let mut cfg = config();
    let view = req_with_query("");
    let h = handle(&rules(), &cfg, &view, None);
    assert_eq!(h.route, Route::Forward);
    assert_eq!(h.hits, Some((Action::Allow, vec![])));
    cfg.fail_mode = FailMode::FailClosed;
    let h = handle(&rules(), &cfg, &view, None);
    assert!(matches!(h.route, Route::Refuse(_)));
    assert!(h.hits.is_none());
}

#[test]
fn requests_are_forwarded_to_the_upstream() {
    assert_eq!(forward_url("http://u:1//", Some("/a?b=1")), "http://u:1/a?b=1");
    assert_eq!(forward_url("http://u:1", None), "http://u:1/");
    for name in ["Host", "content-length", "Transfer-Encoding", "connection"] {
        assert!(is_hop_by_hop(name), "{name}");
    }
    assert!(!is_hop_by_hop("x-host"));
    let kept = forwarded_headers(vec![
        ("Host".into(), b"h".to_vec()),
        ("accept".into(), vec![0xff]),
    ]);
    assert_eq!(kept, vec![("accept".to_string(), vec![0xffu8])]);
}
