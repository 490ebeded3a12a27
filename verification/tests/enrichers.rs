//! What adds labels to envelopes.
use purple_wolf::labels::Labels;
use purple_wolf::relay::config::EnricherConfig;
use purple_wolf::relay::enrichers::http::{build_enrich_url, HttpEnricher};
use purple_wolf::relay::enrichers::lookup::LookupEnricher;
use purple_wolf::relay::enrichers::{build, merge_in_place, Enricher, Reply, Step};

#[test]
fn merge_in_place_does_not_overwrite() {
    let mut labels = Labels::from_pairs(vec![("tenant".into(), "acme".into())]);
    let extra = Labels::from_pairs(vec![
        ("tenant".into(), "spoofed".into()),
        ("region".into(), "us-east-1".into()),
    ]);
    merge_in_place(&mut labels, &extra);
    assert_eq!(labels.get("tenant"), Some("acme"));
    assert_eq!(labels.get("region"), Some("us-east-1"));
}

#[test]
fn merge_in_place_handles_empty() {
    let mut labels = Labels::from_pairs(vec![("a".into(), "1".into())]);
    merge_in_place(&mut labels, &Labels::new());
    assert_eq!(labels.len(), 1);

    let mut empty = Labels::new();
    merge_in_place(&mut empty, &Labels::from_pairs(vec![("a".into(), "1".into())]));
    assert_eq!(empty.get("a"), Some("1"));
}

#[test]
fn lookup_merges_table_entry_when_key_matches() {
    let table = vec![("acme".to_string(), Labels::from_pairs(vec![
            ("owner".into(), "payments".into()),
            ("oncall".into(), "pager-payments".into()),
        ]))];
    let enricher = LookupEnricher::new("tenant".into(), table);
    let mut labels = Labels::from_pairs(vec![("tenant".into(), "acme".into())]);
    enricher.enrich(&mut labels);
    assert_eq!(labels.get("owner"), Some("payments"));
    assert_eq!(
        labels.get("oncall"),
        Some("pager-payments")
    );
}

#[test]
fn lookup_noop_when_label_absent() {
    let table = vec![("acme".to_string(), Labels::from_pairs(vec![("owner".into(), "x".into())]))];
    let enricher = LookupEnricher::new("tenant".into(), table);
    let mut labels = Labels::from_pairs(vec![("other".into(), "v".into())]);
    let before = labels.copy();
    enricher.enrich(&mut labels);
    assert_eq!(labels, before);
}

#[test]
fn lookup_noop_when_table_misses() {
    let table = vec![("acme".to_string(), Labels::from_pairs(vec![("owner".into(), "x".into())]))];
    let enricher = LookupEnricher::new("tenant".into(), table);
    let mut labels = Labels::from_pairs(vec![("tenant".into(), "unknown-tenant".into())]);
    enricher.enrich(&mut labels);
    assert_eq!(labels.get("owner"), None);
}

#[test]
fn lookup_never_overwrites_existing_labels() {
    let table = vec![("acme".to_string(), Labels::from_pairs(vec![("owner".into(), "spoofed".into())]))];
    let enricher = LookupEnricher::new("tenant".into(), table);
    let mut labels = Labels::from_pairs(vec![
        ("tenant".into(), "acme".into()),
        ("owner".into(), "real-owner".into()),
    ]);
    enricher.enrich(&mut labels);
    assert_eq!(
        labels.get("owner"),
        Some("real-owner"),
        "operator-set label must win"
    );
}

const SECOND: u64 = 1_000_000_000;

fn tenant(value: &str) -> Labels {
    Labels::from_pairs(vec![("tenant".into(), value.into())])
}

fn enricher(url: &str, ttl_s: u64, capacity: usize) -> HttpEnricher {
    HttpEnricher::new("tenant".into(), url.into(), 500, ttl_s * SECOND, capacity)
}

fn answer(status: u16, body: &str) -> Reply {
    Reply::Answer { status, body: body.as_bytes().to_vec() }
}

fn fetch_of(step: Step) -> (String, String) {
    match step {
        Step::Fetch { value, url } => (value, url),
        Step::Done => panic!("expected a fetch"),
    }
}

#[test]
fn http_enricher_merges_on_2xx() {
    let mut e = enricher("https://catalog.internal/tenants/{value}/labels", 60, 1024);
    let mut labels = tenant("acme");
    let (value, url) = fetch_of(e.begin(&mut labels, 0));
    assert_eq!(url, "https://catalog.internal/tenants/acme/labels");
    e.finish(
        &mut labels,
        value,
        answer(200, r#"{"owner": "payments", "region": "us-east-1"}"#),
        1,
    );
    assert_eq!(labels.get("owner"), Some("payments"));
    assert_eq!(labels.get("region"), Some("us-east-1"));
}

#[test]
fn http_enricher_silently_drops_on_500() {
    let mut e = enricher("https://catalog.internal/{value}", 60, 1024);
    for reply in [answer(500, r#"{"owner":"x"}"#), answer(200, "not json"), Reply::Failed] {
        let mut labels = tenant("acme");
        let (value, _) = fetch_of(e.begin(&mut labels, 0));
        e.finish(&mut labels, value, reply, 1);
        assert_eq!(labels.len(), 1);
        assert_eq!(e.cache_len(), 0);
    }
}

#[test]
fn http_enricher_caches_within_ttl() {
    let mut e = enricher("https://catalog.internal/{value}", 60, 1024);
    let mut labels = tenant("acme");
    let (value, _) = fetch_of(e.begin(&mut labels, 0));
    e.finish(&mut labels, value, answer(200, r#"{"owner":"payments"}"#), 0);
    assert_eq!(labels.get("owner"), Some("payments"));

    let mut again = tenant("acme");
    assert_eq!(e.begin(&mut again, 59 * SECOND), Step::Done);
    assert_eq!(again.get("owner"), Some("payments"));

    let mut late = tenant("acme");
    let (value, _) = fetch_of(e.begin(&mut late, 60 * SECOND));
    assert_eq!(value, "acme");
}

#[test]
fn http_enricher_without_ttl_keeps_nothing() {
    let mut e = enricher("https://catalog.internal/{value}", 0, 1024);
    let mut labels = tenant("acme");
    let (value, _) = fetch_of(e.begin(&mut labels, 0));
    e.finish(&mut labels, value, answer(200, r#"{"owner":"payments"}"#), 0);
    assert_eq!(labels.get("owner"), Some("payments"));
    assert_eq!(e.cache_len(), 0);
}

#[test]
fn http_enricher_cache_is_capacity_bounded_and_lru() {
    let mut e = enricher("https://catalog.internal/{value}", 60, 2);
    let owner = |name: &str| Labels::from_pairs(vec![("owner".into(), name.into())]);
    e.cache_put("a".into(), owner("a"), 0);
    e.cache_put("b".into(), owner("b"), 0);
    assert!(e.cache_get("a", 0).is_some(), "a is now most recent");
    e.cache_put("c".into(), owner("c"), 0);

    assert_eq!(e.cache_len(), 2);
    assert!(e.cache_get("a", 0).is_some());
    assert!(e.cache_get("b", 0).is_none(), "least recent entry evicted");
    assert!(e.cache_get("c", 0).is_some());
}

#[test]
fn http_enricher_skips_when_label_absent() {
    let mut e = enricher("https://catalog.internal/{value}", 60, 1024);
    let mut labels = Labels::from_pairs(vec![("other".into(), "x".into())]);
    assert_eq!(e.begin(&mut labels, 0), Step::Done);
    assert_eq!(labels.len(), 1);
}

#[test]
fn http_enricher_does_not_overwrite_existing() {
    let mut e = enricher("https://catalog.internal/{value}", 60, 1024);
    let mut labels = Labels::from_pairs(vec![
        ("tenant".into(), "acme".into()),
        ("owner".into(), "real-owner".into()),
    ]);
    let (value, _) = fetch_of(e.begin(&mut labels, 0));
    e.finish(&mut labels, value, answer(200, r#"{"owner":"spoofed"}"#), 0);
    assert_eq!(labels.get("owner"), Some("real-owner"));
}

#[test]
fn substituted_value_is_percent_encoded_against_ssrf() {
    let url = build_enrich_url(
        "https://catalog.internal/tenants/{value}/labels",
        "../../admin",
    );
    assert_eq!(
        url, "https://catalog.internal/tenants/%2E%2E%2F%2E%2E%2Fadmin/labels",
        "slashes and dots in the value must be encoded, not structural"
    );

    let url2 = build_enrich_url("https://catalog.internal/{value}", "evil.com/x?a=b#c");
    assert!(
        url2.starts_with("https://catalog.internal/"),
        "host must be unchanged: {url2}"
    );
    assert!(
        !url2.contains("evil.com/x?") && !url2.contains('#'),
        "URL-significant chars must be encoded: {url2}"
    );
}

#[test]
fn every_placeholder_is_filled() {
    assert_eq!(build_enrich_url("{value}/{value}", "é"), "%C3%A9/%C3%A9");
    assert_eq!(build_enrich_url("plain", "x"), "plain");
    assert_eq!(build_enrich_url("{valu}{value}", "x-1_~"), "{valu}x-1_~");
}

#[test]
fn built_enrichers_have_their_names() {
    let l = build(EnricherConfig::Lookup { on_label: "tenant".into(), table: vec![] });
    assert_eq!(l.name(), "lookup");
    let h = build(EnricherConfig::Http {
        on_label: "tenant".into(),
        url: "u".into(),
        timeout_ms: 1,
        cache_ttl_s: 1,
        cache_capacity: 1,
    });
    assert_eq!(h.name(), "http");
}
