//! The reputation detector: the deny list and the rate limiter.
use purple_wolf::detectors::reputation::ReputationDetector;
use purple_wolf::detectors::Detector;
use purple_wolf::ip::IpAddr;
use purple_wolf::request::Request;

fn req_from(ip: &str) -> Request {
    Request::build(
        "GET",
        "h",
        "/",
        "",
        vec![],
        vec![],
        false,
        ip.parse().unwrap(),
    )
}

#[test]
fn flags_denied_ip() {
    let mut det = ReputationDetector::new(1000, vec!["9.9.9.9".parse().unwrap()]);
    let v = det.inspect(&req_from("9.9.9.9"));
    assert!(v.iter().any(|x| x.rule == "ip_denied"));
}

#[test]
fn rate_limits_burst_from_one_ip() {
    let mut det = ReputationDetector::new(1, vec![]);
    let mut limited = false;
    for _ in 0..50 {
        if det
            .inspect(&req_from("5.5.5.5"))
            .iter()
            .any(|x| x.rule == "rate_limited")
        {
            limited = true;
        }
    }
    assert!(limited, "burst should trip the rate limiter");
}

#[test]
fn bounded_map_evicts_lru_when_full() {
    let cap = 16;
    let mut det = ReputationDetector::with_capacity(100, vec![], cap);
    for i in 0..(cap * 10) {
        let octet = (i & 0xff) as u8;
        let high = ((i >> 8) & 0xff) as u8;
        let ip_str = format!("10.0.{high}.{octet}");
        let _ = det.inspect(&req_from(&ip_str));
    }
    let guard = &det.state;
    assert!(
        guard.tracked_len() <= cap,
        "map should be bounded at {} entries, was {}",
        cap,
        guard.tracked_len()
    );
}

#[test]
fn evicts_least_recently_used_not_most_recently_used() {
    let cap = 4;
    let mut det = ReputationDetector::with_capacity(100, vec![], cap);
    for i in 0..cap {
        let _ = det.inspect(&req_from(&format!("10.0.0.{i}")));
    }
    let _ = det.inspect(&req_from("10.0.0.0"));
    let _ = det.inspect(&req_from("10.0.0.99"));
    let guard = &det.state;
    assert!(
        guard.tracked_contains(&"10.0.0.0".parse::<IpAddr>().unwrap()),
        "re-touched IP must survive eviction"
    );
    assert!(
        !guard.tracked_contains(&"10.0.0.1".parse::<IpAddr>().unwrap()),
        "LRU entry should have been evicted"
    );
}

#[test]
fn eviction_order_is_strict_lru_under_churn() {
    let cap = 8;
    let mut det = ReputationDetector::with_capacity(1000, vec![], cap);
    let total = cap * 5;
    for i in 0..total {
        let _ = det.inspect(&req_from(&format!("10.0.{}.{}", i / 256, i % 256)));
        assert!(det.state.tracked_len() <= cap);
    }
    let guard = &det.state;
    assert_eq!(guard.tracked_len(), cap, "map should be exactly full");
    for i in (total - cap)..total {
        let ip = format!("10.0.{}.{}", i / 256, i % 256)
            .parse::<IpAddr>()
            .unwrap();
        assert!(
            guard.tracked_contains(&ip),
            "a most recent address must survive churn"
        );
    }
    let oldest = "10.0.0.0".parse::<IpAddr>().unwrap();
    assert!(
        !guard.tracked_contains(&oldest),
        "oldest IP must have been evicted under churn"
    );
}

#[test]
fn refill_math_survives_slot_reuse() {
    let cap = 2;
    let mut det = ReputationDetector::with_capacity(1, vec![], cap);
    let victim = "10.0.0.1";
    let _ = det.inspect(&req_from(victim));
    assert!(
        det.inspect(&req_from(victim))
            .iter()
            .any(|x| x.rule == "rate_limited"),
        "second hit from the same IP should be limited"
    );
    for i in 0..cap {
        let _ = det.inspect(&req_from(&format!("10.9.9.{i}")));
    }
    assert!(
        !det.state
            .tracked_contains(&victim.parse::<IpAddr>().unwrap()),
        "victim should have been evicted"
    );
    assert!(
        det.inspect(&req_from(victim))
            .iter()
            .all(|x| x.rule != "rate_limited"),
        "re-seen IP must get a fresh bucket after slot reuse"
    );
}

#[test]
fn requests_at_known_moments_are_decided_exactly() {
    const SECOND: u64 = 1_000_000_000;
    let mut det = ReputationDetector::new(2, vec![]);
    let mut limited = |now: u64| !det.inspect_at(&req_from("5.5.5.5"), now).is_empty();
    assert!(!limited(0));
    assert!(!limited(0));
    assert!(limited(0), "the bucket is empty");
    assert!(limited(SECOND / 4), "half a token is not enough");
    assert!(!limited(SECOND / 2 + SECOND / 4), "a token came back");
    assert!(!limited(10 * SECOND) && !limited(10 * SECOND) && limited(10 * SECOND));
}

#[test]
fn a_denied_address_may_be_limited_too() {
    let mut det = ReputationDetector::new(1, vec!["9.9.9.9".parse().unwrap()]);
    let first = det.inspect_at(&req_from("9.9.9.9"), 0);
    assert_eq!(first.len(), 1);
    assert_eq!(first[0].rule, "ip_denied");
}
