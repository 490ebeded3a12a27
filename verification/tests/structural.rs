//! The structural detector.
use purple_wolf::detectors::structural::StructuralDetector;
use purple_wolf::detectors::Detector;
use purple_wolf::ip::IpAddr;
use purple_wolf::request::Request;

fn ip() -> IpAddr {
    "1.2.3.4".parse().unwrap()
}

#[test]
fn flags_disallowed_method() {
    let req = Request::build("TRACE", "h", "/", "", vec![], vec![], false, ip());
    let v = StructuralDetector.inspect(&req);
    assert!(v.iter().any(|x| x.rule == "method_not_allowed"));
}

#[test]
fn flags_too_many_headers() {
    let headers: Vec<(String, String)> =
        (0..150).map(|i| (format!("x-{i}"), "v".into())).collect();
    let req = Request::build("GET", "h", "/", "", headers, vec![], false, ip());
    let v = StructuralDetector.inspect(&req);
    assert!(v.iter().any(|x| x.rule == "too_many_headers"));
}

#[test]
fn flags_oversized_headers() {
    let headers = vec![("x-big".into(), "a".repeat(17 * 1024))];
    let req = Request::build("GET", "h", "/", "", headers, vec![], false, ip());
    let v = StructuralDetector.inspect(&req);
    assert!(v.iter().any(|x| x.rule == "headers_too_large"));
}

#[test]
fn normal_request_is_clean() {
    let req = Request::build(
        "GET",
        "h",
        "/",
        "",
        vec![("accept".into(), "*/*".into())],
        vec![],
        false,
        ip(),
    );
    assert!(StructuralDetector.inspect(&req).is_empty());
}

#[test]
fn flags_null_byte_in_path() {
    let req = Request::build(
        "GET",
        "h",
        "/download/%00/etc/passwd",
        "",
        vec![],
        vec![],
        false,
        ip(),
    );
    let v = StructuralDetector.inspect(&req);
    assert!(v.iter().any(|x| x.rule == "null_byte"), "verdicts: {v:?}");
}

#[test]
fn flags_null_byte_in_query_value() {
    let req = Request::build("GET", "h", "/f", "name=a%00b", vec![], vec![], false, ip());
    let v = StructuralDetector.inspect(&req);
    assert!(v.iter().any(|x| x.rule == "null_byte"), "verdicts: {v:?}");
}

#[test]
fn flags_crlf_in_query_value() {
    let req = Request::build(
        "GET",
        "h",
        "/redirect",
        "url=x%0d%0aSet-Cookie:+evil=1",
        vec![],
        vec![],
        false,
        ip(),
    );
    let v = StructuralDetector.inspect(&req);
    assert!(
        v.iter().any(|x| x.rule == "crlf_injection"),
        "verdicts: {v:?}"
    );
}

#[test]
fn flags_crlf_in_path() {
    let req = Request::build("GET", "h", "/a%0db", "", vec![], vec![], false, ip());
    let v = StructuralDetector.inspect(&req);
    assert!(
        v.iter().any(|x| x.rule == "crlf_injection"),
        "verdicts: {v:?}"
    );
}

#[test]
fn benign_request_has_no_null_or_crlf() {
    let req = Request::build(
        "GET",
        "h",
        "/search",
        "q=hello+world&lang=en&page=2",
        vec![("accept".into(), "*/*".into())],
        vec![],
        false,
        ip(),
    );
    let v = StructuralDetector.inspect(&req);
    assert!(
        !v.iter()
            .any(|x| x.rule == "null_byte" || x.rule == "crlf_injection"),
        "benign request must not flag control-byte rules: {v:?}"
    );
}
