//! Log lines of the proxy.
use purple_wolf::relay::event::Member;
use purple_wolf::relay::parser::{parse_line, strip_ansi, strip_traefik_suffix, Cow, ParseError};

const SAMPLE: &str = "pw-sim-traefik-1  | \x1b[90m2026-05-25T17:30:02Z\x1b[0m \x1b[32mINF\x1b[0m \x1b[1m{\"host\":\"127.0.0.1:8000\",\"path\":\"/\",\"query\":\"id=1%27\",\"method\":\"GET\",\"source_ip\":\"203.0.113.7\",\"action\":\"block\",\"blocked_rule\":\"injection/sqli\",\"blocked_severity\":\"critical\",\"blocked_detail\":\"SQLi in field: 1'\",\"would_block_rules\":[],\"labels\":{\"tenant\":\"acme\"}}\x1b[0m \x1b[36mentryPointName=\x1b[0mweb \x1b[36mmiddlewareName=\x1b[0mstrict-waf@file \x1b[36mrouterName=\x1b[0mstrict@file";

#[test]
fn parses_real_traefik_audit_line() {
    let p = parse_line(SAMPLE.as_bytes()).unwrap();
    assert_eq!(p.middleware.as_deref(), Some("strict-waf"));
    assert_eq!(p.router.as_deref(), Some("strict"));
    assert_eq!(p.entry_point.as_deref(), Some("web"));
    assert_eq!(p.event.get_text("action"), Some("block"));
    assert_eq!(
        p.event.get("labels"),
        Some(&Member::Table(vec![("tenant".to_string(), Some("acme".to_string()))]))
    );
    assert_eq!(p.event.get_text("blocked_rule"), Some("injection/sqli"));
}

#[test]
fn rejects_non_purple_wolf_line() {
    let line = b"INF Traefik startup complete";
    assert!(matches!(parse_line(line), Err(ParseError::NotPurpleWolf)));
}

#[test]
fn ansi_normalization_borrows_plain_lines() {
    let line = r#"{"action":"allow","would_block_rules":[]}"#;
    assert!(matches!(strip_ansi(line), Cow::Borrowed(_)));
}

#[test]
fn ansi_normalization_owns_only_when_escape_sequences_are_present() {
    let line = "\x1b[32mgreen\x1b[0m";
    let stripped = strip_ansi(line);
    assert!(matches!(stripped, Cow::Owned(_)));
    assert_eq!(stripped.as_str(), "green");
}

#[test]
fn rejects_json_without_pw_signature() {
    let line = br#"{"hello":"world","action":"block"}"#;
    assert!(matches!(parse_line(line), Err(ParseError::NotPurpleWolf)));
}

#[test]
fn rejects_json_with_unknown_action() {
    let line = br#"{"action":"shrug","would_block_rules":[]}"#;
    assert!(matches!(parse_line(line), Err(ParseError::NotPurpleWolf)));
}

#[test]
fn accepts_minimal_allow_event() {
    let line = br#"{"action":"allow","would_block_rules":["injection/sqli"],"host":"x","path":"/","method":"GET","source_ip":"1.2.3.4"}"#;
    let p = parse_line(line).unwrap();
    assert_eq!(p.event.get_text("action"), Some("allow"));
}

#[test]
fn handles_line_without_traefik_enrichment() {
    let line = br#"{"action":"block","would_block_rules":[]}"#;
    let p = parse_line(line).unwrap();
    assert!(p.middleware.is_none());
    assert!(p.router.is_none());
    assert!(p.entry_point.is_none());
}

#[test]
fn parser_is_total_on_random_bytes() {
    let cases: &[&[u8]] = &[
        b"",
        b"{",
        b"}",
        b"{}{",
        b"{\"a\":\"\\\"}",
        &[0xff, 0xfe, 0xfd],
        b"{\"would_block_rules\":[],",
    ];
    for c in cases {
        let _ = parse_line(c);
    }
}

#[test]
fn strips_traefik_suffix_only_when_present() {
    assert_eq!(strip_traefik_suffix("foo".into()), "foo");
    assert_eq!(strip_traefik_suffix("foo@file".into()), "foo");
    assert_eq!(strip_traefik_suffix("foo@kubernetescrd".into()), "foo");
}

#[test]
fn parses_plain_line_without_ansi() {
    let line = r#"{"host":"x","path":"/","method":"GET","source_ip":"1.2.3.4","action":"block","blocked_rule":"injection/sqli","blocked_severity":"critical","would_block_rules":[]} middlewareName=strict-waf@file routerName=strict@file entryPointName=web"#;
    let p = parse_line(line.as_bytes()).unwrap();
    assert_eq!(p.middleware.as_deref(), Some("strict-waf"));
    assert_eq!(p.router.as_deref(), Some("strict"));
    assert_eq!(p.entry_point.as_deref(), Some("web"));
}

#[test]
fn the_payload_does_not_name_the_source() {
    let line = br#"{"action":"block","would_block_rules":[],"query":"middlewareName=evil x"} middlewareName=real@file"#;
    let p = parse_line(line).unwrap();
    assert_eq!(p.middleware.as_deref(), Some("real"));
    let line = br#"{"action":"block","would_block_rules":[],"path":"/entryPointName=a routerName=b middlewareName=c"}"#;
    let p = parse_line(line).unwrap();
    assert!(p.middleware.is_none() && p.router.is_none() && p.entry_point.is_none());
}

#[test]
fn fields_before_the_object_count_where_none_stand_behind_it() {
    let line = br#"routerName=r@docker entryPointName=early {"action":"allow","would_block_rules":[]} entryPointName=late"#;
    let p = parse_line(line).unwrap();
    assert_eq!(p.router.as_deref(), Some("r"));
    assert_eq!(p.entry_point.as_deref(), Some("late"));
}
