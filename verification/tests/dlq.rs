//! Envelopes that could not be delivered.
use purple_wolf::labels::Labels;
use purple_wolf::relay::envelope::{Envelope, EnvelopeSource};
use purple_wolf::relay::event::AuditEvent;
use purple_wolf::relay::subscribers::dlq::Dlq;

fn env(tag: &str) -> Envelope {
    Envelope::new(
        AuditEvent::parse(&format!(r#"{{"tag":"{tag}"}}"#)).unwrap(),
        EnvelopeSource {
            middleware: None,
            router: None,
            entry_point: None,
            relay_instance: "r".into(),
        },
        Labels::new(),
    )
}

#[test]
fn push_within_capacity_keeps_all() {
    let mut dlq = Dlq::new(3);
    for i in 0..3 {
        dlq.push(env(&format!("{i}")));
    }
    assert_eq!(dlq.len(), 3);
    assert_eq!(dlq.overflow_count(), 0);
}

#[test]
fn push_at_capacity_drops_oldest() {
    let mut dlq = Dlq::new(2);
    dlq.push(env("0"));
    dlq.push(env("1"));
    dlq.push(env("2"));
    let snap = dlq.snapshot();
    assert_eq!(snap.len(), 2);
    assert_eq!(snap[0].event.get_text("tag"), Some("1"));
    assert_eq!(snap[1].event.get_text("tag"), Some("2"));
    assert_eq!(dlq.overflow_count(), 1);
}

#[test]
fn drain_all_clears_queue() {
    let mut dlq = Dlq::new(3);
    dlq.push(env("a"));
    dlq.push(env("b"));
    let drained = dlq.drain_all();
    assert_eq!(drained.len(), 2);
    assert!(dlq.is_empty());
}

#[test]
fn without_room_the_newest_is_still_kept() {
    let mut dlq = Dlq::new(0);
    dlq.push(env("a"));
    dlq.push(env("b"));
    assert_eq!(dlq.len(), 1);
    assert_eq!(dlq.overflow_count(), 2);
    assert_eq!(dlq.drain_all()[0].event.get_text("tag"), Some("b"));
}
