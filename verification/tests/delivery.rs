//! Delivery to webhooks, attempt by attempt.
use hmac::{Hmac, Mac};
use purple_wolf::labels::Labels;
use purple_wolf::relay::config::{RetryConfig, SubscriberConfig, SubscriberFilter};
use purple_wolf::relay::envelope::{Envelope, EnvelopeSource};
use purple_wolf::relay::event::AuditEvent;
use purple_wolf::relay::pipeline::{envelope_of_line, fan_out, Recipient};
use purple_wolf::relay::signer::Signer;
use purple_wolf::relay::subscribers::dlq::Dlq;
use purple_wolf::relay::subscribers::http::{
    after_attempt, attempt_one, classify_response, classify_status, config_from, request_at,
    AttemptOutcome, Course, DeliveryRequest, HttpSinkConfig, Next, USER_AGENT,
};
use purple_wolf::relay::subscribers::retry::RetrySchedule;
use sha2::Sha256;

fn env() -> Envelope {
    Envelope::new(
        AuditEvent::parse(r#"{"action": "block", "would_block_rules": []}"#).unwrap(),
        EnvelopeSource {
            middleware: Some("strict-waf".into()),
            router: Some("checkout".into()),
            entry_point: Some("web".into()),
            relay_instance: "r1".into(),
        },
        Labels::from_pairs(vec![("tenant".into(), "acme".into())]),
    )
}

fn sink_config(max_attempts: u32) -> HttpSinkConfig {
    HttpSinkConfig {
        id: "test".into(),
        url: "https://hooks.example/x".into(),
        timeout_ms: 1000,
        retry: RetrySchedule::from_config(&RetryConfig {
            max_attempts,
            base_delay_ms: 10,
            max_delay_ms: 100,
        }),
        max_attempts,
        signer: Signer::new(b"test-secret".to_vec()),
    }
}

/// Delivers an envelope to a webhook that answers with the given statuses, and
/// tells how many attempts were made.
fn deliver(cfg: &HttpSinkConfig, env: Envelope, statuses: &[u16], dlq: &mut Dlq) -> usize {
    let mut env = env;
    let mut attempt = 1;
    let mut made = 0;
    loop {
        let status = statuses[made];
        made += 1;
        assert_eq!(env.attempt, attempt);
        match after_attempt(cfg, env, attempt, classify_status(status)) {
            Next::Done => return made,
            Next::DeadLetter(e) => {
                dlq.push(e);
                return made;
            }
            Next::Retry { delay_ms, attempt: n, env: e } => {
                assert!(delay_ms <= 120);
                attempt = n;
                env = e;
            }
        }
    }
}

#[test]
fn classify_status_partitions_responses_correctly() {
    assert_eq!(classify_status(200), AttemptOutcome::Delivered);
    assert_eq!(classify_status(204), AttemptOutcome::Delivered);
    assert_eq!(classify_status(299), AttemptOutcome::Delivered);
    assert_eq!(classify_status(301), AttemptOutcome::PermanentFailure);
    assert_eq!(classify_status(400), AttemptOutcome::PermanentFailure);
    assert_eq!(classify_status(401), AttemptOutcome::PermanentFailure);
    assert_eq!(classify_status(404), AttemptOutcome::PermanentFailure);
    assert_eq!(classify_status(408), AttemptOutcome::Retryable);
    assert_eq!(classify_status(429), AttemptOutcome::Retryable);
    assert_eq!(classify_status(500), AttemptOutcome::Retryable);
    assert_eq!(classify_status(502), AttemptOutcome::Retryable);
    assert_eq!(classify_status(599), AttemptOutcome::Retryable);
    assert_eq!(classify_status(600), AttemptOutcome::PermanentFailure);
    assert_eq!(classify_response(None), AttemptOutcome::Retryable);
    assert_eq!(classify_response(Some(200)), AttemptOutcome::Delivered);
}

#[test]
fn delivers_on_2xx() {
    let mut dlq = Dlq::new(16);
    assert_eq!(deliver(&sink_config(3), env(), &[200], &mut dlq), 1);
    assert!(dlq.is_empty());
}

#[test]
fn retries_on_500_then_succeeds() {
    let mut dlq = Dlq::new(16);
    assert_eq!(deliver(&sink_config(5), env(), &[500, 500, 200], &mut dlq), 3);
    assert!(
        dlq.is_empty(),
        "delivered on the third try; DLQ stays empty"
    );
}

#[test]
fn permanent_4xx_goes_to_dlq_without_retry() {
    let mut dlq = Dlq::new(16);
    assert_eq!(
        deliver(&sink_config(5), env(), &[400], &mut dlq),
        1,
        "no retries on 4xx"
    );
    assert_eq!(dlq.len(), 1);
}

#[test]
fn exhausts_max_attempts_then_dlq() {
    let mut dlq = Dlq::new(16);
    assert_eq!(
        deliver(&sink_config(3), env(), &[503, 503, 503], &mut dlq),
        3,
        "exactly max_attempts tries"
    );
    assert_eq!(dlq.len(), 1);
}

fn header<'a>(headers: &'a [(String, String)], name: &str) -> &'a str {
    headers.iter().find(|(k, _)| k == name).map(|(_, v)| v.as_str()).unwrap()
}

#[test]
fn signature_changes_per_attempt() {
    let cfg = HttpSinkConfig {
        retry: RetrySchedule::from_config(&RetryConfig {
            max_attempts: 5,
            base_delay_ms: 1_100,
            max_delay_ms: 2_000,
        }),
        ..sink_config(5)
    };
    let statuses = [500, 500, 200];
    let mut received = Vec::new();
    let mut env = env();
    let mut attempt = 1;
    let mut now_ms = 1_700_000_000_000;
    loop {
        let r = request_at(&cfg, &env, attempt, now_ms / 1000);
        received.push((
            header(&r.headers, "x-purplewolf-signature").to_string(),
            header(&r.headers, "x-purplewolf-timestamp").to_string(),
            header(&r.headers, "x-purplewolf-event-id").to_string(),
            header(&r.headers, "x-purplewolf-delivery-id").to_string(),
        ));
        let outcome = classify_status(statuses[received.len() - 1]);
        match after_attempt(&cfg, env, attempt, outcome) {
            Next::Done => break,
            Next::DeadLetter(_) => panic!("delivered on the third try"),
            Next::Retry { delay_ms, attempt: n, env: e } => {
                assert!(delay_ms >= 1_000, "a second or more between attempts: {delay_ms}");
                now_ms += delay_ms;
                attempt = n;
                env = e;
            }
        }
    }
    let g = received;
    assert_eq!(g.len(), 3);
    assert_ne!(g[0].1, g[1].1);
    assert_ne!(g[1].1, g[2].1);
    assert_ne!(g[0].0, g[1].0);
    assert_ne!(g[1].0, g[2].0);
    assert!(g[0].2 == g[1].2 && g[1].2 == g[2].2, "the event keeps its identifier");
    assert!(g[0].3 != g[1].3 && g[1].3 != g[2].3, "each delivery has its own");
}

const SECRET: &str = "integration-test-secret";

const AUDIT_LINE: &[u8] = br#"{"host":"checkout.acme.example","path":"/api/v1/cart","query":"id=1%27+OR+%271%27%3D%271","method":"POST","source_ip":"203.0.113.7","action":"block","blocked_rule":"injection/sqli","blocked_severity":"critical","blocked_detail":"SQLi","would_block_rules":["reputation/rate_limited"],"labels":{"tenant":"acme","service":"checkout"}}"#;

fn verify_signature(secret: &[u8], ts: &str, body: &[u8], header_value: &str) -> bool {
    let Some(hex_part) = header_value.strip_prefix("sha256=") else {
        return false;
    };
    let mut mac = <Hmac<Sha256> as Mac>::new_from_slice(secret).unwrap();
    mac.update(format!("{ts}.").as_bytes());
    mac.update(body);
    hex::encode(mac.finalize().into_bytes()) == hex_part
}

fn e2e_subscriber() -> SubscriberConfig {
    SubscriberConfig {
        id: "e2e".into(),
        url: "http://127.0.0.1:8080/webhook".into(),
        secret_env: Some("INTEGRATION_SECRET".into()),
        secret_file: None,
        filter: SubscriberFilter::default(),
        retry: RetryConfig { max_attempts: 1, base_delay_ms: 100, max_delay_ms: 200 },
        timeout_ms: 5000,
        enabled: true,
    }
}

/// The envelope for the line as a source reads it, newline included.
fn e2e_envelope() -> Envelope {
    let line = [AUDIT_LINE, b"\n"].concat();
    match envelope_of_line(&line, "e2e-relay") {
        Ok(e) => e,
        Err(e) => panic!("{}", e.message()),
    }
}

/// What the request to the subscriber holds, whenever it is sent.
fn check_e2e_request(r: &DeliveryRequest) {
    assert_eq!(r.url, "http://127.0.0.1:8080/webhook");
    let h = |name: &str| header(&r.headers, name).to_string();
    assert_eq!(h("content-type"), "application/json");
    assert_eq!(h("x-purplewolf-schema"), "purple-wolf.audit/v1");
    assert_eq!(h("x-purplewolf-attempt"), "1");
    assert!(h("x-purplewolf-event-id").len() > 8);
    assert!(h("x-purplewolf-delivery-id").len() > 8);
    let ts = h("x-purplewolf-timestamp");
    assert!(ts.parse::<u64>().is_ok(), "timestamp not numeric: {ts}");
    let sig = h("x-purplewolf-signature");
    assert!(sig.starts_with("sha256="));
    assert!(
        verify_signature(SECRET.as_bytes(), &ts, &r.body, &sig),
        "signature verification failed"
    );

    let env: serde_json::Value = serde_json::from_slice(&r.body).unwrap();
    assert_eq!(env["schema"], "purple-wolf.audit/v1");
    assert_eq!(env["event_id"], h("x-purplewolf-event-id"));
    assert_eq!(env["delivery_id"], h("x-purplewolf-delivery-id"));
    assert_eq!(env["source"]["middleware"], serde_json::Value::Null);
    assert_eq!(env["source"]["relay_instance"], "e2e-relay");
    assert_eq!(env["labels"]["tenant"], "acme");
    assert_eq!(env["labels"]["service"], "checkout");
    assert_eq!(env["event"]["host"], "checkout.acme.example");
    assert_eq!(env["event"]["action"], "block");
    assert_eq!(env["event"]["blocked_rule"], "injection/sqli");
    let logged: serde_json::Value = serde_json::from_slice(AUDIT_LINE).unwrap();
    assert_eq!(env["event"], logged);
}

#[test]
fn end_to_end_delivers_signed_envelope_to_subscriber() {
    let subscriber = e2e_subscriber();
    let env = e2e_envelope();
    let takers = fan_out(&vec![Recipient::of(&subscriber)], &env);
    assert_eq!(takers, [0], "expected exactly one delivery");
    let cfg = config_from(&subscriber, SECRET.as_bytes().to_vec());
    check_e2e_request(&attempt_one(&cfg, &env, 1));
    assert!(matches!(after_attempt(&cfg, env, 1, classify_status(200)), Next::Done));
}

#[test]
fn a_line_becomes_a_signed_request_at_a_given_time() {
    let cfg = config_from(&e2e_subscriber(), SECRET.as_bytes().to_vec());
    let env = e2e_envelope();
    assert_eq!(env.event_id.len(), 26);
    assert_eq!(env.event_id, env.delivery_id);
    let r = request_at(&cfg, &env, 1, 1_748_194_202);
    check_e2e_request(&r);
    assert_eq!(header(&r.headers, "x-purplewolf-timestamp"), "1748194202");
    assert_eq!(header(&r.headers, "x-purplewolf-event-id"), env.event_id);
}

#[test]
fn outcomes_are_counted_by_their_words() {
    assert_eq!(Course::Done.label(), "delivered");
    assert_eq!(Course::GiveUp.label(), "dlq");
    assert_eq!(Course::TryAgain.label(), "retry");
    assert_eq!(USER_AGENT, "purple-wolf-relay/0.4.0");
}
