//! The injection detector.
use purple_wolf::detectors::injection::{truncate_bytes, ua_suffix_candidates, InjectionDetector};
use purple_wolf::detectors::{Detector, Verdict};
use purple_wolf::ip::IpAddr;
use purple_wolf::request::{Findings, Request};

fn ip() -> IpAddr {
    "1.2.3.4".parse().unwrap()
}

/// Stands for the SQL tokenizer on the texts below: it takes a text that looks
/// like a user agent for one, whatever follows.
fn is_sqli(s: &[u8]) -> bool {
    let t = String::from_utf8_lossy(s);
    !t.starts_with("Mozilla/") && (t.contains("' OR '1'='1") || t.contains(" OR 1=1"))
}

/// Stands for the HTML tokenizer on the texts below.
fn is_xss(s: &[u8]) -> bool {
    String::from_utf8_lossy(s).contains("<script>")
}

fn verdicts_on(req: Request) -> Vec<Verdict> {
    let findings = Findings {
        sqli: req.inspectable_fields().into_iter().map(is_sqli).collect(),
        xss: req.inspectable_fields().into_iter().map(is_xss).collect(),
        suffix_sqli: match req.user_agent() {
            Some(ua) => ua_suffix_candidates(ua)
                .iter()
                .map(|c| c.map_or(false, |s| is_sqli(s.as_bytes())))
                .collect(),
            None => vec![],
        },
    };
    InjectionDetector.inspect(&req.with_findings(findings))
}

fn req_with_query(q: &str) -> Request {
    Request::build("GET", "h", "/s", q, vec![], vec![], false, ip())
}

fn req_with_header(name: &str, value: &str) -> Request {
    Request::build("GET", "h", "/", "", vec![(name.into(), value.into())], vec![], false, ip())
}

#[test]
fn flags_sqli_in_query() {
    let v = verdicts_on(req_with_query("id=1%27%20OR%20%271%27%3D%271"));
    assert!(v.iter().any(|x| x.rule == "sqli"));
}

#[test]
fn flags_xss_in_query() {
    let v = verdicts_on(req_with_query("c=%3Cscript%3Ealert(1)%3C/script%3E"));
    assert!(v.iter().any(|x| x.rule == "xss"));
}

#[test]
fn benign_query_is_clean() {
    let v = verdicts_on(req_with_query("name=victor&page=2"));
    assert!(v.is_empty());
}

#[test]
fn flags_double_encoded_sqli_in_query() {
    let v = verdicts_on(req_with_query(
        "id=%2527%2520OR%2520%25271%2527%253D%25271",
    ));
    assert!(
        v.iter().any(|x| x.rule == "sqli"),
        "double-encoded SQLi must be detected after fixpoint decode; got {v:?}"
    );
}

#[test]
fn benign_percent_literal_does_not_false_positive() {
    let v = verdicts_on(req_with_query("discount=50%25off&items=2"));
    assert!(
        v.is_empty(),
        "benign percent literal should not flag: {v:?}"
    );
}

#[test]
fn flags_sqli_in_cookie_header() {
    let v = verdicts_on(req_with_header("Cookie", "id=1' OR '1'='1"));
    assert!(v.iter().any(|x| x.rule == "sqli"), "got {v:?}");
}

#[test]
fn flags_sqli_in_referer_header() {
    let v = verdicts_on(req_with_header("Referer", "http://x/?id=1' OR '1'='1"));
    assert!(v.iter().any(|x| x.rule == "sqli"), "got {v:?}");
}

#[test]
fn flags_sqli_in_custom_x_header() {
    let v = verdicts_on(req_with_header("X-User", "' OR 1=1 --"));
    assert!(v.iter().any(|x| x.rule == "sqli"), "got {v:?}");
}

#[test]
fn flags_xss_in_referer_header() {
    let v = verdicts_on(req_with_header("Referer", "<script>alert(1)</script>"));
    assert!(v.iter().any(|x| x.rule == "xss"), "got {v:?}");
}

#[test]
fn benign_cookie_does_not_false_positive() {
    let v = verdicts_on(req_with_header(
        "Cookie",
        "sessionid=abc123; csrftoken=xyz789",
    ));
    assert!(v.is_empty(), "benign cookie should not flag: {v:?}");
}

#[test]
fn truncate_replaces_control_chars() {
    let dangerous = b"1' OR '1'='1\r\n{\"action\":\"allow\"}\x00\x07";
    let safe = truncate_bytes(dangerous);
    assert!(!safe.contains('\r'), "CR must be stripped: {safe:?}");
    assert!(!safe.contains('\n'), "LF must be stripped: {safe:?}");
    assert!(!safe.contains('\x00'), "NUL must be stripped: {safe:?}");
    assert!(!safe.contains('\x07'), "BEL must be stripped: {safe:?}");
    assert!(safe.starts_with("1' OR '1'='1"));
}

#[test]
fn flags_percent_encoded_sqli_in_cookie() {
    let v = verdicts_on(req_with_header("Cookie", "id=%27%20OR%20%271%27%3D%271"));
    assert!(
        v.iter().any(|x| x.rule == "sqli"),
        "percent-encoded cookie SQLi must be inspected; got {v:?}"
    );
}

#[test]
fn flags_mozilla_prefixed_sqli_in_user_agent() {
    let v = verdicts_on(req_with_header("User-Agent", "Mozilla/5.0 1 OR 1=1"));
    assert!(
        v.iter().any(|x| x.rule == "sqli"),
        "Mozilla-prefixed UA SQLi must be detected via suffix probe; got {v:?}"
    );
}

#[test]
fn flags_sqli_in_user_agent_after_paren() {
    let v = verdicts_on(req_with_header(
        "User-Agent",
        "Mozilla/5.0 (X11; Linux x86_64) ' OR '1'='1",
    ));
    assert!(
        v.iter().any(|x| x.rule == "sqli"),
        "UA SQLi after the paren block must be detected; got {v:?}"
    );
}

#[test]
fn benign_user_agent_does_not_false_positive() {
    let v = verdicts_on(req_with_header(
        "User-Agent",
        "Mozilla/5.0 (Windows NT 10.0; Win64; x64) AppleWebKit/537.36 (KHTML, like Gecko) Chrome/120.0 Safari/537.36",
    ));
    assert!(v.is_empty(), "benign UA must not flag: {v:?}");
}

#[test]
fn user_agent_sqli_not_double_counted() {
    let v = verdicts_on(req_with_header("User-Agent", "' OR '1'='1"));
    assert_eq!(
        v.iter().filter(|x| x.rule == "sqli").count(),
        1,
        "UA SQLi must not be double-counted; got {v:?}"
    );
}

#[test]
fn ua_suffix_candidates_derive_expected_tails() {
    assert_eq!(
        ua_suffix_candidates("Mozilla/5.0 1 OR 1=1"),
        [None, Some("1 OR 1=1")]
    );
    assert_eq!(
        ua_suffix_candidates("Mozilla/5.0 (X11; Linux) ' OR 1=1"),
        [Some("' OR 1=1"), Some("(X11; Linux) ' OR 1=1")]
    );
    assert_eq!(ua_suffix_candidates("curl/8.4.0"), [None, None]);
    assert_eq!(
        ua_suffix_candidates("Mozilla/5.0) 1 OR 1=1"),
        [Some("1 OR 1=1"), None]
    );
}

#[test]
fn realistic_browser_user_agents_do_not_false_positive() {
    for ua in [
        "Mozilla/5.0 (iPhone; CPU iPhone OS 17_0 like Mac OS X) AppleWebKit/605.1.15 (KHTML, like Gecko) Version/17.0 Mobile/15E148 Safari/604.1",
        "Mozilla/5.0 (Macintosh; Intel Mac OS X 10_15_7) AppleWebKit/537.36 (KHTML, like Gecko) Chrome/120.0.0.0 Safari/537.36",
        "Mozilla/5.0 (X11; Ubuntu; Linux x86_64; rv:121.0) Gecko/20100101 Firefox/121.0",
        "curl/8.4.0",
        "PostmanRuntime/7.36.0",
    ] {
        let v = verdicts_on(req_with_header("User-Agent", ua));
        assert!(v.is_empty(), "benign UA {ua:?} must not flag: {v:?}");
    }
}

#[test]
fn details_quote_the_field() {
    let v = verdicts_on(req_with_header("X-User", "' OR 1=1\r"));
    assert_eq!(v.len(), 1);
    assert_eq!(v[0].detail, "SQLi in field: ' OR 1=1.");
    let v = verdicts_on(req_with_header("User-Agent", "Mozilla/5.0 1 OR 1=1"));
    assert_eq!(v[0].detail, "SQLi in User-Agent suffix: 1 OR 1=1");
    let v = verdicts_on(req_with_query("c=<script>"));
    assert_eq!(v[0].detail, "XSS in field: <script>");
}

#[test]
fn previews_are_bounded() {
    assert_eq!(truncate_bytes(&[b'a'; 100]), "a".repeat(80));
    assert_eq!(truncate_bytes(&[b'a', 0xff]), "a\u{fffd}");
}

#[test]
fn missing_findings_count_as_none() {
    let v = InjectionDetector.inspect(&req_with_query("id=1%27%20OR%20%271%27%3D%271"));
    assert!(v.is_empty());
}
