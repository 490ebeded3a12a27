//! The guest: its configuration, its host, and what it does with a request.
use purple_wolf::config::{
    BodyConfig, Config, FailMode, GroupConfig, GroupMode, Groups, Mode, OverCap, ReputationConfig,
    XffConfig,
};
use purple_wolf::detectors::Group;
use purple_wolf::ip::IpAddr;
use purple_wolf::labels::Labels;
use purple_wolf::policy::Action;
use purple_wolf::request::{Findings, Request};
use purple_wolf::traefik::config::{
    adapt, default_body, fallback, lenient_bool, lenient_u32, lenient_usize, warning_suffix,
    LenientBool, LenientNumber,
};
use purple_wolf::traefik::entry::{
    collect_headers, next_signal, parse_deny_list, parse_peer, prepare, soft_failure, split_uri,
    EffectiveGroupModes, Outcome, PluginState, Prepared, RawRequest,
};
use purple_wolf::traefik::host::{
    accept_retry, join_values, plan_read, reported_length, split_eof, split_nul, split_packed,
    to_write_back, BodyDrain, BodyRead, BodyReadError, DrainStep, ReadPlan, MAX_ALLOC, MAX_MULTI_VALUES, SCRATCH,
};

fn no_groups() -> Groups {
    Groups { injection: None, signatures: None, structural: None, reputation: None }
}

fn config(mode: Mode) -> Config {
    Config {
        mode,
        fail_mode: FailMode::FailOpen,
        body: default_body(),
        groups: no_groups(),
        reputation: ReputationConfig::default(),
        xff: XffConfig::default(),
        labels: Labels::new(),
    }
}

fn group(enabled: bool, mode: GroupMode) -> Option<GroupConfig> {
    Some(GroupConfig { enabled, mode })
}

fn text(s: &str) -> LenientNumber {
    LenientNumber::Text(s.into())
}

fn said(s: &str) -> LenientBool {
    LenientBool::Text(s.into())
}

// --- configuration ---------------------------------------------------------

#[test]
fn default_body_limits() {
    assert_eq!(default_body().max_inspect_bytes, 1_048_576);
    assert_eq!(default_body().over_cap, OverCap::Pass);
}

#[test]
fn missing_groups_get_documented_defaults() {
    let cfg = adapt(config(Mode::Enforce)).expect("adapt");

    let inj = cfg.groups.injection.as_ref().expect("injection default applied");
    assert!(inj.enabled);
    assert_eq!(inj.mode, GroupMode::Enforce);

    let sig = cfg.groups.signatures.as_ref().expect("signatures default applied");
    assert!(sig.enabled);
    assert_eq!(sig.mode, GroupMode::Enforce);

    let str_ = cfg.groups.structural.as_ref().expect("structural default applied");
    assert!(str_.enabled);
    assert_eq!(str_.mode, GroupMode::Monitor);

    let rep = cfg.groups.reputation.as_ref().expect("reputation default applied");
    assert!(!rep.enabled);
    assert_eq!(rep.mode, GroupMode::Monitor);
}

#[test]
fn explicit_group_overrides_default() {
    let mut c = config(Mode::Enforce);
    c.groups.structural = group(false, GroupMode::Monitor);
    let cfg = adapt(c).expect("adapt");
    let str_ = cfg.groups.structural.as_ref().expect("structural present");
    assert!(!str_.enabled);
}

#[test]
fn rejects_empty_string_for_enabled_bool() {
    let err = lenient_bool(said("")).expect_err("empty boolean string must error");
    assert!(
        err.contains("invalid boolean string"),
        "error should call out the bad value: {err}"
    );
    assert_eq!(err, "invalid boolean string \"\"");
}

#[test]
fn rejects_per_second_zero() {
    let mut c = config(Mode::Enforce);
    c.reputation.per_second = 0;
    let err = adapt(c).expect_err("perSecond=0 must error");
    assert!(err.contains("perSecond"), "error: {err}");
}

#[test]
fn rejects_max_inspect_bytes_zero() {
    let mut c = config(Mode::Enforce);
    c.body = BodyConfig { max_inspect_bytes: 0, over_cap: OverCap::Pass };
    let err = adapt(c).expect_err("maxInspectBytes=0 must error");
    assert!(err.contains("maxInspectBytes"), "error: {err}");
}

#[test]
fn accepts_traefik_stringified_primitives() {
    assert_eq!(lenient_usize(text("2048")), Ok(2048));
    assert_eq!(lenient_bool(said("true")), Ok(true));
    assert_eq!(lenient_bool(said("false")), Ok(false));
    assert_eq!(lenient_u32(text("250")), Ok(250));
}

#[test]
fn lenient_values_are_read_in_every_spelling() {
    for s in ["TRUE", " 1 ", "yes", "On"] {
        assert_eq!(lenient_bool(said(s)), Ok(true));
    }
    for s in ["False", "0", "NO", "off"] {
        assert_eq!(lenient_bool(said(s)), Ok(false));
    }
    assert!(lenient_bool(said("maybe")).is_err());
    assert_eq!(lenient_bool(LenientBool::Bool(true)), Ok(true));
    assert_eq!(lenient_usize(LenientNumber::Number(7)), Ok(7));
    assert_eq!(lenient_u32(text(" +5 ")), Ok(5));
    assert!(lenient_u32(text("")).unwrap_err().contains("empty"));
    assert!(lenient_u32(text("1x")).unwrap_err().contains("invalid digit"));
    assert!(lenient_u32(text("4294967296")).unwrap_err().contains("too large"));
    assert!(lenient_u32(LenientNumber::Number(4_294_967_296)).is_err());
}

#[test]
fn warnings_are_counted() {
    assert_eq!(warning_suffix(0), "");
    assert_eq!(warning_suffix(1), " (1 warning)");
    assert_eq!(warning_suffix(12), " (12 warnings)");
}

#[test]
fn the_fallback_runs_everything_and_blocks_nothing() {
    let f = fallback();
    assert_eq!(f.mode, Mode::Monitor);
    for g in [f.groups.injection, f.groups.signatures, f.groups.structural, f.groups.reputation] {
        assert_eq!(g, group(true, GroupMode::Monitor));
    }
}

// --- the peer --------------------------------------------------------------

fn v4(s: &str) -> IpAddr {
    s.parse().unwrap()
}

#[test]
fn parses_ipv4_with_port() {
    assert_eq!(parse_peer("203.0.113.7:5555"), v4("203.0.113.7"));
}

#[test]
fn parses_bare_ipv4() {
    assert_eq!(parse_peer("203.0.113.7"), v4("203.0.113.7"));
}

#[test]
fn parses_bracketed_ipv6_with_port() {
    assert_eq!(parse_peer("[::1]:8080"), "::1".parse::<IpAddr>().unwrap());
}

#[test]
fn parses_bare_ipv6() {
    assert_eq!(parse_peer("::1"), "::1".parse::<IpAddr>().unwrap());
    assert_eq!(
        parse_peer("2001:db8::dead:beef"),
        "2001:db8::dead:beef".parse::<IpAddr>().unwrap()
    );
}

#[test]
fn parses_bare_bracketed_ipv6() {
    assert_eq!(parse_peer("[::1]"), "::1".parse::<IpAddr>().unwrap());
}

#[test]
fn empty_falls_back_to_unspecified() {
    assert_eq!(parse_peer(""), v4("0.0.0.0"));
    assert_eq!(parse_peer("   "), v4("0.0.0.0"));
}

#[test]
fn garbage_falls_back_to_unspecified() {
    assert_eq!(parse_peer("not-an-ip"), v4("0.0.0.0"));
    assert_eq!(parse_peer("not-an-ip:5555"), v4("0.0.0.0"));
}

// --- the host --------------------------------------------------------------

/// Reads a body that comes in these chunks, and gives back the chunks that the
/// library has written to the host again.
fn drained(
    max: usize,
    preserve: bool,
    chunks: &[(bool, &[u8])],
) -> (Result<BodyRead, BodyReadError>, Vec<Vec<u8>>) {
    let mut drain = BodyDrain::new(max, preserve);
    let mut preserved = Vec::new();
    for (eof, bytes) in chunks {
        let mut scratch = vec![b'#'; SCRATCH];
        scratch[..bytes.len()].copy_from_slice(bytes);
        let n = to_write_back(bytes.len());
        if n > 0 {
            preserved.push(scratch[..n].to_vec());
        }
        match drain.drain_body(*eof, bytes.len(), &scratch) {
            DrainStep::More => {}
            DrainStep::Done => return (Ok(drain.finish()), preserved),
            DrainStep::Failed(e) => return (Err(e), preserved),
        }
    }
    panic!("unexpected extra read");
}

#[test]
fn empty_body_does_not_allocate_output() {
    let body = drained(1024, true, &[(true, b"")]).0.unwrap();
    assert_eq!(body, BodyRead::default());
    assert_eq!(body.bytes.capacity(), 0);
}

#[test]
fn exact_cap_is_not_reported_as_exceeded() {
    let body = drained(4, true, &[(false, b"abcd"), (true, b"")]).0.unwrap();
    assert_eq!(body.bytes, b"abcd");
    assert!(!body.exceeded);
}

#[test]
fn over_cap_body_returns_only_the_prefix() {
    let (body, preserved) = drained(4, false, &[(false, b"abcdef")]);
    let body = body.unwrap();
    assert_eq!(body.bytes, b"abcd");
    assert!(body.exceeded);
    assert_eq!(preserved, [b"abcdef".to_vec()]);
}

#[test]
fn bounded_zero_progress_becomes_an_error() {
    let error = drained(4, true, &[(false, b""), (false, b""), (false, b"")]).0.unwrap_err();
    assert_eq!(error, BodyReadError::StreamStalled);
}

#[test]
fn transient_zero_progress_is_tolerated() {
    let body = drained(4, true, &[(false, b""), (false, b"ab"), (true, b"cd")]).0.unwrap();
    assert_eq!(body.bytes, b"abcd");
    assert!(!body.exceeded);
}

#[test]
fn pass_policy_reconstructs_bytes_beyond_the_inspection_cap() {
    let (body, preserved) =
        drained(4, true, &[(false, b"abcd"), (false, b"efgh"), (true, b"ij")]);
    let body = body.unwrap();
    assert_eq!(body.bytes, b"abcd");
    assert!(body.exceeded);
    assert_eq!(preserved.concat(), b"abcdefghij");
}

#[test]
fn only_what_the_buffer_holds_is_written_back() {
    assert_eq!(to_write_back(0), 0);
    assert_eq!(to_write_back(7), 7);
    assert_eq!(to_write_back(SCRATCH), SCRATCH);
    assert_eq!(to_write_back(SCRATCH + 1), 0);
    let whole = vec![b'x'; SCRATCH];
    let (body, preserved) = drained(10, true, &[(false, &whole), (false, b""), (true, b"end")]);
    assert!(body.unwrap().exceeded);
    assert_eq!(preserved.concat().len(), SCRATCH + 3);
    let (error, preserved) =
        drained(10, true, &[(false, b"ab"), (false, b""), (false, b""), (false, b"")]);
    assert_eq!(error.unwrap_err(), BodyReadError::StreamStalled);
    assert_eq!(preserved, [b"ab".to_vec()]);
}

#[test]
fn a_chunk_beyond_the_buffer_is_a_violation() {
    let mut drain = BodyDrain::new(4, true);
    let step = drain.drain_body(false, SCRATCH + 1, &vec![0u8; SCRATCH]);
    assert_eq!(step, DrainStep::Failed(BodyReadError::HostContractViolation));
    assert!(!BodyReadError::HostContractViolation.forwarding_is_safe());
    assert!(BodyReadError::BufferingUnsupported.forwarding_is_safe());
    assert!(BodyReadError::StreamStalled.message().contains("no progress"));
    assert_eq!(BodyDrain::new(usize::MAX, true).limit, MAX_ALLOC);
}

#[test]
fn nul_split_never_exceeds_the_host_reported_count() {
    let values = split_nul(b"a\0b\0c\0", 2);
    assert_eq!(values, [b"a".to_vec(), b"b".to_vec()]);
}

#[test]
fn nul_split_capacity_is_bounded_by_the_available_bytes() {
    let values = split_nul(b"a\0", usize::MAX);
    assert_eq!(values, [b"a".to_vec()]);
    assert!(values.capacity() <= 2);
}

#[test]
fn nul_split_caps_adversarial_value_counts() {
    let bytes = vec![0_u8; MAX_MULTI_VALUES * 2];
    let values = split_nul(&bytes, usize::MAX);
    assert_eq!(values.len(), MAX_MULTI_VALUES);
    assert!(values.capacity() <= MAX_MULTI_VALUES);
}

#[test]
fn nul_split_leaves_out_what_is_not_terminated() {
    assert_eq!(split_nul(b"a\0b", 9), [b"a".to_vec()]);
    assert!(split_nul(b"a\0", 0).is_empty());
}

#[test]
fn packed_answers_are_taken_apart() {
    assert_eq!(split_packed((3 << 32) | 7), (3, 7));
    assert_eq!(split_packed(-1), (0, 0));
    assert_eq!(split_eof((1 << 32) | 5), (true, 5));
    assert_eq!(split_eof(5), (false, 5));
    assert_eq!(reported_length(-4), 0);
    assert_eq!(reported_length(4), 4);
}

#[test]
fn reads_are_planned_by_their_length() {
    assert_eq!(plan_read(SCRATCH), ReadPlan::Keep(SCRATCH));
    assert_eq!(plan_read(SCRATCH + 1), ReadPlan::Retry(SCRATCH + 1));
    assert_eq!(plan_read(MAX_ALLOC + 1), ReadPlan::Discard);
    assert_eq!(accept_retry(5, 4), None);
    assert_eq!(accept_retry(4, 4), Some(4));
}

#[test]
fn header_values_are_joined() {
    assert_eq!(join_values(&vec![]), None);
    assert_eq!(
        join_values(&vec![b"a".to_vec(), vec![0xff], b"".to_vec()]),
        Some("a, \u{fffd}, ".to_string())
    );
}

// --- requests --------------------------------------------------------------

#[test]
fn uris_are_split_at_the_first_question_mark() {
    assert_eq!(split_uri("/a?b?c"), ("/a".to_string(), "b?c".to_string()));
    assert_eq!(split_uri("/a"), ("/a".to_string(), "".to_string()));
    assert_eq!(split_uri("?q"), ("".to_string(), "q".to_string()));
}

#[test]
fn deny_lists_keep_what_is_an_address() {
    let list = vec!["1.2.3.4".to_string(), "x".to_string(), "::1".to_string()];
    assert_eq!(parse_deny_list(&list), vec![v4("1.2.3.4"), v4("::1")]);
}

#[test]
fn headers_without_a_value_are_left_out() {
    let raw = vec![("Host".to_string(), Some("h".to_string())), ("X".to_string(), None)];
    assert_eq!(collect_headers(raw).len(), 1);
}

#[test]
fn running_groups_are_those_not_off() {
    let mut c = config(Mode::Enforce);
    c.groups.injection = group(true, GroupMode::Enforce);
    c.groups.structural = group(false, GroupMode::Enforce);
    c.groups.reputation = group(true, GroupMode::Monitor);
    let m = EffectiveGroupModes::from_config(&c);
    assert_eq!(m.enabled_groups(), vec![Group::Injection, Group::Reputation]);
    assert_eq!(m.get(Group::Structure), GroupMode::Off);
}

fn raw(method: &str, uri: &str) -> RawRequest {
    RawRequest {
        method: method.into(),
        uri: uri.into(),
        headers: vec![
            ("host".into(), Some("Shop.example".into())),
            ("x-forwarded-for".into(), Some("198.51.100.1, 10.0.0.1".into())),
        ],
        source_addr: "203.0.113.7:5555".into(),
    }
}

fn no_body() -> Result<BodyRead, BodyReadError> {
    Ok(BodyRead::default())
}

fn inspected(p: Prepared) -> Request {
    match p {
        Prepared::Inspect(r) => r,
        other => panic!("expected a request, got {other:?}"),
    }
}

fn refused(p: Prepared) -> &'static str {
    match p {
        Prepared::Refuse(r) => {
            assert_eq!(r.status, 403);
            r.body
        }
        other => panic!("expected a refusal, got {other:?}"),
    }
}

#[test]
fn a_request_is_prepared() {
    let c = config(Mode::Enforce);
    let body = Ok(BodyRead { bytes: b"ab".to_vec(), exceeded: true });
    let r = inspected(prepare(&c, raw("post", "/a%20b?x=1"), body));
    assert_eq!(r.method, "POST");
    assert_eq!(r.host, "shop.example");
    assert_eq!(r.path, "/a b");
    assert_eq!(r.query_params, vec![("x".to_string(), "1".to_string())]);
    assert_eq!(r.source_ip, v4("203.0.113.7"));
    assert!(r.body_inspected && r.body_truncated);

    let mut c = config(Mode::Enforce);
    c.xff.trusted_hops = 1;
    let r = inspected(prepare(&c, raw("GET", "/"), no_body()));
    assert_eq!(r.source_ip, v4("198.51.100.1"));
    assert!(!r.body_inspected && !r.body_truncated);
}

#[test]
fn the_body_may_decide_alone() {
    let over = || Ok(BodyRead { bytes: vec![], exceeded: true });
    let mut c = config(Mode::Monitor);
    assert!(matches!(
        prepare(&c, raw("GET", "/"), Err(BodyReadError::BufferingUnsupported)),
        Prepared::Pass
    ));
    assert_eq!(
        refused(prepare(&c, raw("GET", "/"), Err(BodyReadError::StreamStalled))),
        "request body could not be preserved"
    );
    inspected(prepare(&c, raw("GET", "/"), over()));
    c.body.over_cap = OverCap::Block;
    assert_eq!(refused(prepare(&c, raw("GET", "/"), over())), "body exceeds inspection cap");
    c.fail_mode = FailMode::FailClosed;
    assert_eq!(
        refused(prepare(&c, raw("GET", "/"), Err(BodyReadError::BufferingUnsupported))),
        "inspection failed (fail_closed)"
    );
}

fn run(state: &mut PluginState, uri: &str, sqli: bool) -> Outcome {
    let r = inspected(prepare(&state.cfg, raw("GET", uri), no_body()));
    let n = r.inspectable_fields().len();
    let r = r.with_findings(Findings { sqli: vec![sqli; n], xss: vec![], suffix_sqli: vec![] });
    state.inspect(&r)
}

#[test]
fn an_enforcing_guest_blocks_and_logs() {
    let (mut state, notice) = PluginState::start(adapt(config(Mode::Enforce)));
    assert!(notice.is_none() && !state.fallback);

    let clean = run(&mut state, "/", false);
    assert_eq!(clean.action, Action::Allow);
    assert!(clean.log.is_none() && clean.refusal.is_none());
    assert_eq!(next_signal(clean.action), 1);

    let bad = run(&mut state, "/?q=1", true);
    assert_eq!(bad.action, Action::Block);
    assert_eq!(next_signal(bad.action), 0);
    assert_eq!(bad.refusal.map(|r| r.body), Some("request blocked by purple-wolf"));
    let log: serde_json::Value = serde_json::from_str(&bad.log.unwrap()).unwrap();
    assert_eq!(log["blocked_rule"], "injection/sqli");
    assert_eq!(log["source_ip"], "203.0.113.7");
    assert!(log.get("labels").is_none() && log.get("config_fallback").is_none());
}

#[test]
fn every_line_carries_the_labels() {
    let mut c = config(Mode::Enforce);
    c.labels = Labels::from_pairs(vec![("tenant".into(), "acme\n".into())]);
    let (mut state, _) = PluginState::start(adapt(c));
    let log: serde_json::Value =
        serde_json::from_str(&run(&mut state, "/?q=1", true).log.unwrap()).unwrap();
    assert_eq!(log["labels"]["tenant"], "acme.");
}

#[test]
fn the_guest_remembers_who_asked() {
    let mut c = config(Mode::Enforce);
    c.groups.reputation = group(true, GroupMode::Enforce);
    c.reputation.per_second = 1;
    let (mut state, _) = PluginState::start(adapt(c));
    assert_eq!(run(&mut state, "/", false).action, Action::Allow);
    let second = run(&mut state, "/", false);
    assert_eq!(second.action, Action::Block);
    assert!(second.log.unwrap().contains("reputation/rate_limited"));
}

#[test]
fn a_broken_configuration_only_watches() {
    let (mut state, notice) = PluginState::start(Err("no mode".into()));
    assert!(state.fallback);
    assert!(notice.unwrap().starts_with("purple-wolf: invalid Middleware config (no mode); "));
    let bad = run(&mut state, "/?q=1", true);
    assert_eq!(bad.action, Action::Allow);
    assert!(bad.log.unwrap().contains("injection/sqli"));
    let quiet = run(&mut state, "/", false).log.unwrap();
    assert!(quiet.ends_with("\"would_block_rules\":[],\"config_fallback\":true}"));
    let over = Ok(BodyRead { bytes: b"a".to_vec(), exceeded: true });
    assert!(inspected(prepare(&state.cfg, raw("POST", "/"), over)).body_truncated);
    assert!(matches!(
        prepare(&state.cfg, raw("POST", "/"), Err(BodyReadError::BufferingUnsupported)),
        Prepared::Pass
    ));
}

#[test]
fn a_monitoring_guest_never_blocks() {
    let mut c = config(Mode::Monitor);
    c.groups.injection = group(true, GroupMode::Enforce);
    let (mut state, _) = PluginState::start(adapt(c));
    assert_eq!(run(&mut state, "/?q=1", true).action, Action::Allow);
}

#[test]
fn a_breakdown_follows_the_fail_mode() {
    assert!(soft_failure(FailMode::FailOpen).is_none());
    assert_eq!(
        soft_failure(FailMode::FailClosed).map(|r| r.body),
        Some("inspection failed (fail_closed)")
    );
}
