//! Envelopes and what becomes of a line.
use purple_wolf::labels::Labels;
use purple_wolf::relay::envelope::{Envelope, EnvelopeSource, Moment, SCHEMA_V1};
use purple_wolf::relay::event::AuditEvent;
use purple_wolf::relay::parser::ParseError;
use purple_wolf::relay::pipeline::{envelope_of_line, fan_out, labels_of, parse_result, Recipient};
use purple_wolf::relay::subscribers::filter::CompiledFilter;
use purple_wolf::relay::config::SubscriberFilter;

fn dummy_source() -> EnvelopeSource {
    EnvelopeSource {
        middleware: Some("strict-waf".into()),
        router: Some("checkout".into()),
        entry_point: Some("web".into()),
        relay_instance: "r1".into(),
    }
}

#[test]
fn envelope_round_trips_v1_schema_string() {
    let env = Envelope::new(
        AuditEvent::parse(r#"{"action":"block","blocked_rule":"injection/sqli"}"#).unwrap(),
        dummy_source(),
        Labels::from_pairs(vec![("tenant".into(), "acme".into())]),
    );
    let decoded: serde_json::Value = serde_json::from_str(&env.to_json()).unwrap();
    assert_eq!(decoded["schema"], SCHEMA_V1);
    assert_eq!(decoded["labels"]["tenant"], "acme");
    assert_eq!(decoded["event_id"], env.event_id.as_str());
    assert_eq!(decoded["delivery_id"], env.delivery_id.as_str());
    assert_eq!(decoded["delivered_at"], env.delivered_at.text.as_str());
    assert_eq!(decoded["attempt"], 1);
    assert_eq!(decoded["source"]["middleware"], "strict-waf");
    assert_eq!(decoded["source"]["relay_instance"], "r1");
    assert_eq!(decoded["event"]["action"], "block");
}

#[test]
fn envelope_omits_empty_labels_in_json() {
    let env = Envelope::new(AuditEvent::parse("{}").unwrap(), dummy_source(), Labels::new());
    let json = env.to_json();
    assert!(
        !json.contains("\"labels\""),
        "empty labels must be skip-serialized: {json}"
    );
}

#[test]
fn with_attempt_rolls_delivery_id_and_attempt() {
    let env = Envelope::new(AuditEvent::parse("{}").unwrap(), dummy_source(), Labels::new());
    let event_id = env.event_id.clone();
    let delivery_id_1 = env.delivery_id.clone();
    let env2 = env.with_attempt(2);
    assert_eq!(env2.attempt, 2);
    assert_eq!(
        env2.event_id, event_id,
        "event_id is stable across attempts"
    );
    assert_ne!(
        env2.delivery_id, delivery_id_1,
        "delivery_id rolls per attempt"
    );
}

#[test]
fn identifiers_and_moments_have_their_form() {
    let env = Envelope::new(AuditEvent::parse("{}").unwrap(), dummy_source(), Labels::new());
    assert_eq!(env.event_id.len(), 26);
    assert!(env.event_id.chars().all(|c| "0123456789ABCDEFGHJKMNPQRSTVWXYZ".contains(c)));
    assert_eq!(env.event_id, env.delivery_id);
    assert!(env.delivered_at.secs > 1_600_000_000);
    assert!(env.delivered_at.text.ends_with('Z'));
}

#[test]
fn envelope_json_is_exact() {
    let env = Envelope::assemble(
        AuditEvent::parse(r#"{ "a" : 1 }"#).unwrap(),
        EnvelopeSource {
            middleware: None,
            router: Some("a\"b".into()),
            entry_point: None,
            relay_instance: "r".into(),
        },
        Labels::from_pairs(vec![("k".into(), "v".into())]),
        "ID".into(),
        Moment { secs: 0, text: "1970-01-01T00:00:00Z".into() },
    );
    assert_eq!(
        env.to_json(),
        r#"{"schema":"purple-wolf.audit/v1","event_id":"ID","delivery_id":"ID","delivered_at":"1970-01-01T00:00:00Z","attempt":1,"labels":{"k":"v"},"source":{"middleware":null,"router":"a\"b","entry_point":null,"relay_instance":"r"},"event":{"a":1}}"#
    );
    let copy = env.copy();
    assert_eq!(copy.to_json(), env.to_json());
}

const LINE: &[u8] = br#"{"host":"checkout.acme.example","path":"/api/v1/cart","query":"id=1%27+OR+%271%27%3D%271","method":"POST","source_ip":"203.0.113.7","action":"block","blocked_rule":"injection/sqli","blocked_severity":"critical","blocked_detail":"SQLi","would_block_rules":["reputation/rate_limited"],"labels":{"tenant":"acme","service":"checkout","n":1}}"#;

#[test]
fn a_line_becomes_an_envelope_with_its_labels() {
    let r = envelope_of_line(LINE, "e2e-relay");
    assert_eq!(parse_result(&r), "ok");
    let env = match r {
        Ok(e) => e,
        Err(_) => panic!("expected an envelope"),
    };
    assert_eq!(env.labels.len(), 2);
    assert_eq!(env.labels.get("tenant"), Some("acme"));
    assert_eq!(env.labels.get("service"), Some("checkout"));
    assert_eq!(env.source.middleware, None);
    assert_eq!(env.source.relay_instance, "e2e-relay");
    assert_eq!(env.event.get_text("blocked_rule"), Some("injection/sqli"));
}

#[test]
fn a_foreign_line_becomes_nothing() {
    let r = envelope_of_line(b"INF Traefik startup complete", "r");
    assert_eq!(parse_result(&r), "not_pw");
    assert_eq!(parse_result(&Err(ParseError::Malformed("x".into()))), "error");
}

#[test]
fn an_envelope_goes_to_those_who_take_it() {
    let recipient = |enabled: bool, tenant: &str| Recipient {
        enabled,
        filter: CompiledFilter::compile(&SubscriberFilter {
            labels: Labels::from_pairs(vec![("tenant".into(), tenant.into())]),
            ..Default::default()
        }),
    };
    let list = vec![
        recipient(true, "acme"),
        recipient(false, "acme"),
        recipient(true, "contoso"),
        recipient(true, "acme"),
    ];
    let env = match envelope_of_line(LINE, "r") {
        Ok(e) => e,
        Err(_) => panic!("expected an envelope"),
    };
    assert_eq!(fan_out(&list, &env), vec![0, 3]);
}

#[test]
fn labels_of_an_event_without_any() {
    let e = AuditEvent::parse(r#"{"labels":"none"}"#).unwrap();
    assert!(labels_of(&e).is_empty());
}
