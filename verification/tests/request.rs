//! The normalized request and the client's address.
use purple_wolf::ip::IpAddr;
use purple_wolf::request::{client_ip, decode, Request};

fn ip() -> IpAddr {
    "1.2.3.4".parse().unwrap()
}

fn peer() -> IpAddr {
    "127.0.0.1".parse().unwrap()
}

#[test]
fn request_decodes_query_params() {
    let v = Request::build(
        "get",
        "Example.COM",
        "/search",
        "q=%27%20OR%201%3D1",
        vec![],
        vec![],
        false,
        ip(),
    );
    assert_eq!(v.method, "GET");
    assert_eq!(v.host, "example.com");
    assert_eq!(
        v.query_params,
        vec![("q".to_string(), "' OR 1=1".to_string())]
    );
}

#[test]
fn double_encoded_sqli_in_query_is_decoded() {
    let v = Request::build(
        "GET",
        "h",
        "/search",
        "q=%2527%2520OR%25201%253D1",
        vec![],
        vec![],
        false,
        ip(),
    );
    assert_eq!(
        v.query_params,
        vec![("q".to_string(), "' OR 1=1".to_string())]
    );
}

#[test]
fn decode_is_bounded_and_stops_at_fixpoint() {
    assert_eq!(decode("plain-value"), "plain-value");
    assert_eq!(decode("100%"), "100%");
    assert_eq!(decode("discount=50%25off"), "discount=50%off");
}

#[test]
fn request_inspectable_fields_skips_uninspected_body() {
    let v = Request::build(
        "POST",
        "h",
        "/p",
        "a=1",
        vec![],
        b"payload".to_vec(),
        false,
        ip(),
    );
    assert!(!v.inspectable_fields().contains(&b"payload".as_slice()));
    let v2 = Request::build(
        "POST",
        "h",
        "/p",
        "a=1",
        vec![],
        b"payload".to_vec(),
        true,
        ip(),
    );
    assert!(v2.inspectable_fields().contains(&b"payload".as_slice()));
}

#[test]
fn body_truncated_defaults_false_and_setter_flips_it() {
    let v = Request::build("POST", "h", "/p", "", vec![], b"abc".to_vec(), true, ip());
    assert!(!v.body_truncated, "body_truncated must default to false");
    let v2 = v.with_truncated_body(true);
    assert!(v2.body_truncated, "with_truncated_body(true) must set the flag");
}

#[test]
fn truncated_body_prefix_is_still_inspected() {
    let v = Request::build("POST", "h", "/p", "", vec![], b"prefix-bytes".to_vec(), true, ip())
        .with_truncated_body(true);
    assert!(v.inspectable_fields().contains(&b"prefix-bytes".as_slice()));
    assert!(v.body_truncated);
}

#[test]
fn raw_query_is_preserved_when_present_and_none_when_empty() {
    let v = Request::build(
        "GET",
        "h",
        "/s",
        "q=%27%20OR%201%3D1",
        vec![],
        vec![],
        false,
        ip(),
    );
    assert_eq!(v.raw_query(), Some("q=%27%20OR%201%3D1"));

    let v2 = Request::build("GET", "h", "/s", "", vec![], vec![], false, ip());
    assert_eq!(v2.raw_query(), None);
}

#[test]
fn request_header_lookup_is_case_insensitive() {
    let v = Request::build(
        "GET",
        "h",
        "/",
        "",
        vec![("User-Agent".to_string(), "curl".to_string())],
        vec![],
        false,
        ip(),
    );
    assert_eq!(v.header("user-agent"), Some("curl"));
}

#[test]
fn inspectable_fields_includes_allowlisted_header_values() {
    let v = Request::build(
        "GET",
        "h",
        "/p",
        "q=1",
        vec![
            ("Cookie".into(), "sess=abc; id=42".into()),
            ("Referer".into(), "https://x.example/from".into()),
            ("Authorization".into(), "Bearer tok".into()),
            ("X-User".into(), "victor".into()),
            ("User-Agent".into(), "Mozilla/5.0".into()),
            ("Accept-Language".into(), "en-US".into()),
            ("Cache-Control".into(), "no-cache".into()),
        ],
        vec![],
        false,
        ip(),
    );
    let fields = v.inspectable_fields();
    assert!(fields.contains(&b"sess=abc; id=42".as_slice()));
    assert!(fields.contains(&b"https://x.example/from".as_slice()));
    assert!(fields.contains(&b"Bearer tok".as_slice()));
    assert!(fields.contains(&b"victor".as_slice()));
    assert!(fields.contains(&b"Mozilla/5.0".as_slice()));
    assert!(!fields.contains(&b"en-US".as_slice()));
    assert!(!fields.contains(&b"no-cache".as_slice()));
}

#[test]
fn inspectable_header_values_matches_x_prefix_case_insensitively() {
    let v = Request::build(
        "GET",
        "h",
        "/",
        "",
        vec![("X-Forwarded-For".into(), "1.2.3.4".into())],
        vec![],
        false,
        ip(),
    );
    let values: Vec<&[u8]> = v
        .inspectable_header_values()
        .iter()
        .map(Vec::as_slice)
        .collect();
    assert_eq!(values, vec![b"1.2.3.4".as_slice()]);
}

#[test]
fn header_inspection_preserves_existing_field_order() {
    let v = Request::build(
        "POST",
        "h",
        "/path",
        "q=qv",
        vec![("Cookie".into(), "ck".into())],
        b"body".to_vec(),
        true,
        ip(),
    );
    assert_eq!(
        v.inspectable_fields(),
        vec![
            b"/path".as_slice(),
            b"qv".as_slice(),
            b"body".as_slice(),
            b"ck".as_slice(),
        ]
    );
}

#[test]
fn client_ip_with_trust_hops_zero_always_returns_peer() {
    let h = vec![(
        "x-forwarded-for".to_string(),
        "203.0.113.7, 10.0.0.1".to_string(),
    )];
    assert_eq!(client_ip(&h, peer(), 0), peer());
}

#[test]
fn client_ip_with_one_trusted_hop_peels_rightmost() {
    let h = vec![(
        "x-forwarded-for".to_string(),
        "203.0.113.7, 10.0.0.1".to_string(),
    )];
    assert_eq!(
        client_ip(&h, peer(), 1),
        "203.0.113.7".parse::<IpAddr>().unwrap()
    );
}

#[test]
fn client_ip_with_two_trusted_hops_peels_two_rightmost() {
    let h = vec![(
        "x-forwarded-for".to_string(),
        "203.0.113.7, 10.0.0.1, 10.0.0.2".to_string(),
    )];
    assert_eq!(
        client_ip(&h, peer(), 2),
        "203.0.113.7".parse::<IpAddr>().unwrap()
    );
}

#[test]
fn client_ip_when_trust_exhausts_chain_returns_peer() {
    let h = vec![("x-forwarded-for".to_string(), "10.0.0.1".to_string())];
    assert_eq!(client_ip(&h, peer(), 3), peer());
}

#[test]
fn client_ip_falls_through_garbage_after_peeling() {
    let h = vec![(
        "x-forwarded-for".to_string(),
        "not-an-ip, 198.51.100.5, 10.0.0.1".to_string(),
    )];
    assert_eq!(
        client_ip(&h, peer(), 1),
        "198.51.100.5".parse::<IpAddr>().unwrap()
    );
}

#[test]
fn client_ip_uses_x_real_ip_when_xff_absent_and_hops_set() {
    let h = vec![("x-real-ip".to_string(), "198.51.100.9".to_string())];
    assert_eq!(
        client_ip(&h, peer(), 1),
        "198.51.100.9".parse::<IpAddr>().unwrap()
    );
}

#[test]
fn client_ip_ignores_x_real_ip_when_hops_zero() {
    let h = vec![("x-real-ip".to_string(), "198.51.100.9".to_string())];
    assert_eq!(client_ip(&h, peer(), 0), peer());
}

#[test]
fn request_client_ip_falls_back_to_peer_when_both_unparseable() {
    let h = vec![
        ("x-forwarded-for".to_string(), "not-an-ip".to_string()),
        ("x-real-ip".to_string(), "also-not".to_string()),
    ];
    assert_eq!(client_ip(&h, peer(), 1), peer());
}

#[test]
fn bodies_are_kept_as_they_came() {
    let r = Request::build("POST", "h", "/", "", vec![], vec![b'a', 0xff, b'%'], true, ip());
    assert_eq!(r.body_bytes(), [b'a', 0xff, b'%']);
    assert_eq!(r.body_text_lossy(), "a\u{fffd}%");
    assert_eq!(r.raw_query(), None);
}
