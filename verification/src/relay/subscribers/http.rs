//! Delivery of envelopes to a webhook, with retries.
use vstd::prelude::*;
use vstd::utf8::*;

use crate::bytes::text_bytes;
use crate::relay::config::SubscriberConfig;
use crate::relay::envelope;
use crate::relay::envelope::{utc_now, Envelope, EnvelopeModel, SCHEMA_V1};
use crate::relay::signer;
use crate::relay::signer::Signer;
use crate::relay::subscribers::retry;
use crate::relay::subscribers::retry::RetrySchedule;
use crate::request;
use crate::request::Pair;
use crate::text;
use crate::text::{copy_text, decimal_text};

verus! {

/// How the relay names itself to a webhook.
pub const USER_AGENT: &'static str = "purple-wolf-relay/0.4.0";

// ---------------------------------------------------------------------------
// What a response means
// ---------------------------------------------------------------------------
/// What one attempt came to.
#[derive(Debug, Clone, Copy, PartialEq, Eq, Structural)]
pub enum AttemptOutcome {
    /// The subscriber has the event.
    Delivered,
    /// It may work later.
    Retryable,
    /// It will not work.
    PermanentFailure,
}

/// What a response's status means. A redirect is a failure.
pub open spec fn meaning(status: u16) -> AttemptOutcome {
    if 200 <= status <= 299 {
        AttemptOutcome::Delivered
    } else if status == 408 || status == 429 || 500 <= status <= 599 {
        AttemptOutcome::Retryable
    } else {
        AttemptOutcome::PermanentFailure
    }
}

/// What a response's status means.
pub fn classify_status(status: u16) -> (r: AttemptOutcome)
    ensures
        r == meaning(status),
{
    if 200 <= status && status <= 299 {
        AttemptOutcome::Delivered
    } else if status == 408 || status == 429 || (500 <= status && status <= 599) {
        AttemptOutcome::Retryable
    } else {
        AttemptOutcome::PermanentFailure
    }
}

/// What came back: a status, or nothing because of a timeout or a broken
/// connection.
pub fn classify_response(status: Option<u16>) -> (r: AttemptOutcome)
    ensures
        r == match status {
            Some(s) => meaning(s),
            None => AttemptOutcome::Retryable,
        },
{
    match status {
        Some(s) => classify_status(s),
        None => AttemptOutcome::Retryable,
    }
}

// ---------------------------------------------------------------------------
// What is sent
// ---------------------------------------------------------------------------
/// What the deliveries to one subscriber need.
pub struct HttpSinkConfig {
    /// The subscriber's name.
    pub id: String,
    /// Where to deliver.
    pub url: String,
    /// How long an attempt may take, in milliseconds.
    pub timeout_ms: u64,
    /// When to try again.
    pub retry: RetrySchedule,
    /// How often to try.
    pub max_attempts: u32,
    /// What signs the bodies.
    pub signer: Signer,
}

/// What the deliveries to a subscriber need, out of its configuration and its
/// secret.
pub fn config_from(s: &SubscriberConfig, secret: Vec<u8>) -> (r: HttpSinkConfig)
    ensures
        r.id@ == s.id@,
        r.url@ == s.url@,
        r.timeout_ms == s.timeout_ms,
        r.retry.base_delay_ms == s.retry.base_delay_ms,
        r.retry.max_delay_ms == s.retry.max_delay_ms,
        r.max_attempts == s.retry.max_attempts,
        r.signer.secret@ == secret@,
{
    HttpSinkConfig {
        id: copy_text(&s.id),
        url: copy_text(&s.url),
        timeout_ms: s.timeout_ms,
        retry: RetrySchedule::from_config(&s.retry),
        max_attempts: s.retry.max_attempts,
        signer: Signer::new(secret),
    }
}

/// The body of a delivery.
pub open spec fn delivery_body(e: EnvelopeModel) -> Seq<u8> {
    encode_utf8(envelope::envelope_json(e))
}

/// The headers of a delivery.
pub open spec fn delivery_headers(
    e: EnvelopeModel,
    secret: Seq<u8>,
    attempt: u32,
    timestamp: u64,
) -> Seq<Pair> {
    seq![
        ("content-type"@, "application/json"@),
        ("x-purplewolf-schema"@, SCHEMA_V1@),
        ("x-purplewolf-event-id"@, e.event_id),
        ("x-purplewolf-delivery-id"@, e.delivery_id),
        ("x-purplewolf-attempt"@, text::decimal(attempt as nat)),
        ("x-purplewolf-timestamp"@, text::decimal(timestamp as nat)),
        ("x-purplewolf-signature"@, signer::signature(secret, timestamp, delivery_body(e))),
    ]
}

/// A request to a webhook.
#[derive(Debug)]
pub struct DeliveryRequest {
    /// Where to post it.
    pub url: String,
    /// The headers.
    pub headers: Vec<(String, String)>,
    /// The body.
    pub body: Vec<u8>,
}

fn header(name: &str, value: String) -> (r: (String, String))
    ensures
        r.0@ == name@,
        r.1@ == value@,
{
    (copy_text(name), value)
}

/// The request for an attempt at a given time, in seconds since 1970.
pub fn request_at(cfg: &HttpSinkConfig, env: &Envelope, attempt: u32, timestamp: u64) -> (r:
    DeliveryRequest)
    ensures
        r.url@ == cfg.url@,
        r.body@ == delivery_body(env@),
        request::pairs(r.headers@) == delivery_headers(
            env@,
            cfg.signer.secret@,
            attempt,
            timestamp,
        ),
{
    let body = text_bytes(&env.to_json());
    let signature = cfg.signer.sign(timestamp, &body);
    let mut headers: Vec<(String, String)> = Vec::new();
    headers.push(header("content-type", copy_text("application/json")));
    headers.push(header("x-purplewolf-schema", copy_text(SCHEMA_V1)));
    headers.push(header("x-purplewolf-event-id", copy_text(&env.event_id)));
    headers.push(header("x-purplewolf-delivery-id", copy_text(&env.delivery_id)));
    headers.push(header("x-purplewolf-attempt", decimal_text(attempt as u64)));
    headers.push(header("x-purplewolf-timestamp", decimal_text(timestamp)));
    headers.push(header("x-purplewolf-signature", signature));
    assert(request::pairs(headers@) =~= delivery_headers(
        env@,
        cfg.signer.secret@,
        attempt,
        timestamp,
    ));
    DeliveryRequest { url: copy_text(&cfg.url), headers, body }
}

/// The request for an attempt that is made now.
pub fn attempt_one(cfg: &HttpSinkConfig, env: &Envelope, attempt: u32) -> (r: DeliveryRequest)
    ensures
        r.url@ == cfg.url@,
        r.body@ == delivery_body(env@),
        exists|now: u64|
            request::pairs(r.headers@) == #[trigger] delivery_headers(
                env@,
                cfg.signer.secret@,
                attempt,
                now,
            ),
{
    request_at(cfg, env, attempt, utc_now().secs)
}

// ---------------------------------------------------------------------------
// What happens behind an attempt
// ---------------------------------------------------------------------------
/// How a delivery goes on.
#[derive(Debug, Clone, Copy, PartialEq, Eq, Structural)]
pub enum Course {
    /// It is done.
    Done,
    /// It is given up: the envelope goes to the dead letters.
    GiveUp,
    /// It is tried once more.
    TryAgain,
}

/// How a delivery goes on behind an attempt.
pub open spec fn course(outcome: AttemptOutcome, attempt: int, max_attempts: int) -> Course {
    match outcome {
        AttemptOutcome::Delivered => Course::Done,
        AttemptOutcome::PermanentFailure => Course::GiveUp,
        AttemptOutcome::Retryable => if attempt >= max_attempts {
            Course::GiveUp
        } else {
            Course::TryAgain
        },
    }
}

/// How a delivery goes on behind an attempt.
pub fn course_after(outcome: AttemptOutcome, attempt: u32, max_attempts: u32) -> (r: Course)
    ensures
        r == course(outcome, attempt as int, max_attempts as int),
{
    match outcome {
        AttemptOutcome::Delivered => Course::Done,
        AttemptOutcome::PermanentFailure => Course::GiveUp,
        AttemptOutcome::Retryable => if attempt >= max_attempts {
            Course::GiveUp
        } else {
            Course::TryAgain
        },
    }
}

impl Course {
    /// The word under which deliveries are counted.
    pub open spec fn word(self) -> Seq<char> {
        match self {
            Course::Done => "delivered"@,
            Course::GiveUp => "dlq"@,
            Course::TryAgain => "retry"@,
        }
    }

    /// The word under which deliveries are counted.
    pub fn label(&self) -> (r: &'static str)
        ensures
            r@ == self.word(),
    {
        match self {
            Course::Done => "delivered",
            Course::GiveUp => "dlq",
            Course::TryAgain => "retry",
        }
    }
}

/// What to do behind an attempt.
#[derive(Debug)]
pub enum Next {
    /// Nothing more.
    Done,
    /// Keep the envelope among the dead letters.
    DeadLetter(Envelope),
    /// Wait, and then try again with this envelope.
    Retry { delay_ms: u64, attempt: u32, env: Envelope },
}

/// The delay of a retry is one that the schedule allows.
pub open spec fn is_due(s: RetrySchedule, attempt: u32, delay_ms: u64) -> bool {
    if retry::is_off(s.base_delay_ms, s.max_delay_ms) {
        delay_ms == 0
    } else {
        exists|factor: int|
            retry::LEAST_JITTER <= factor <= retry::GREATEST_JITTER && delay_ms
                == #[trigger] retry::jittered(
                retry::steady_delay(s.base_delay_ms, s.max_delay_ms, attempt),
                factor,
            )
    }
}

/// What to do behind an attempt. A retry has the next number, a new delivery
/// identifier, and the same event.
pub fn after_attempt(cfg: &HttpSinkConfig, env: Envelope, attempt: u32, outcome: AttemptOutcome) -> (r:
    Next)
    ensures
        match course(outcome, attempt as int, cfg.max_attempts as int) {
            Course::Done => r is Done,
            Course::GiveUp => r == Next::DeadLetter(env),
            Course::TryAgain => {
                &&& r is Retry
                &&& r->attempt == attempt + 1
                &&& is_due(cfg.retry, attempt, r->delay_ms)
                &&& envelope::is_ulid(r->env@.delivery_id)
                &&& r->env@ == envelope::next_envelope(
                    env@,
                    r->attempt,
                    r->env@.delivery_id,
                    r->env@.delivered_at,
                )
            },
        },
{
    match course_after(outcome, attempt, cfg.max_attempts) {
        Course::Done => Next::Done,
        Course::GiveUp => Next::DeadLetter(env),
        Course::TryAgain => {
            let delay_ms: u64 = cfg.retry.next_delay(attempt);
            let again: u32 = attempt + 1;
            Next::Retry { delay_ms, attempt: again, env: env.with_attempt(again) }
        },
    }
}

// ---------------------------------------------------------------------------
// Laws
// ---------------------------------------------------------------------------
/// A delivery from an attempt on, with the outcome of each attempt: the number of
/// the last attempt and how it ended, or nothing while it goes on.
pub open spec fn delivery(outcomes: Seq<AttemptOutcome>, attempt: int, max_attempts: int) -> Option<
    (int, Course),
>
    decreases outcomes.len(),
{
    if outcomes.len() == 0 {
        None
    } else {
        match course(outcomes[0], attempt, max_attempts) {
            Course::TryAgain => delivery(outcomes.skip(1), attempt + 1, max_attempts),
            end => Some((attempt, end)),
        }
    }
}

/// A delivery never takes more attempts than are allowed, and at least one is
/// always made.
pub proof fn law_attempts_are_bounded(outcomes: Seq<AttemptOutcome>, attempt: int, max_attempts: int)
    requires
        1 <= attempt,
    ensures
        match delivery(outcomes, attempt, max_attempts) {
            Some((last, end)) => attempt <= last && (last <= max_attempts || last == attempt) && (end
                is Done || end is GiveUp),
            None => outcomes.len() == 0 || attempt + outcomes.len() <= max_attempts,
        },
    decreases outcomes.len(),
{
    if outcomes.len() > 0 && course(outcomes[0], attempt, max_attempts) is TryAgain {
        law_attempts_are_bounded(outcomes.skip(1), attempt + 1, max_attempts);
    }
}

/// While the outcome stays retryable, a delivery is given up behind the last
/// attempt that is allowed, and not before.
pub proof fn law_exhausted_delivery_is_given_up(
    outcomes: Seq<AttemptOutcome>,
    attempt: int,
    max_attempts: int,
)
    requires
        1 <= attempt <= max_attempts,
        outcomes.len() > max_attempts - attempt,
        forall|i: int|
            0 <= i < outcomes.len() ==> #[trigger] outcomes[i] == AttemptOutcome::Retryable,
    ensures
        delivery(outcomes, attempt, max_attempts) == Some((max_attempts, Course::GiveUp)),
    decreases outcomes.len(),
{
    assert(outcomes[0] == AttemptOutcome::Retryable);
    if attempt < max_attempts {
        let rest = outcomes.skip(1);
        assert forall|i: int| 0 <= i < rest.len() implies #[trigger] rest[i]
            == AttemptOutcome::Retryable by {
            assert(rest[i] == outcomes[i + 1]);
        }
        law_exhausted_delivery_is_given_up(rest, attempt + 1, max_attempts);
    }
}

/// A failure that is no use to retry ends a delivery at once.
pub proof fn law_permanent_failure_ends_at_once(
    outcomes: Seq<AttemptOutcome>,
    attempt: int,
    max_attempts: int,
)
    requires
        outcomes.len() > 0,
        outcomes[0] == AttemptOutcome::PermanentFailure,
    ensures
        delivery(outcomes, attempt, max_attempts) == Some((attempt, Course::GiveUp)),
{
}

/// A redirect, and a client error other than a timeout or too many requests, is
/// permanent.
pub proof fn law_client_errors_are_permanent(status: u16)
    requires
        300 <= status <= 499,
        status != 408,
        status != 429,
    ensures
        meaning(status) == AttemptOutcome::PermanentFailure,
{
}

/// Success means delivered; a timeout, too many requests and any fault of the server mean
/// that it is worth another try; anything else is final.
pub proof fn law_statuses_are_told_apart(status: u16)
    ensures
        meaning(status) is Delivered <==> status / 100 == 2,
        meaning(status) is Retryable <==> status / 100 == 5 || status == 408 || status == 429,
        meaning(status) is PermanentFailure <==> !(status / 100 == 2) && !(status / 100 == 5)
            && status != 408 && status != 429,
{
}

/// A delivery ends with the first attempt that says so, whichever it is.
pub proof fn law_first_decided_attempt_ends_it(
    outcomes: Seq<AttemptOutcome>,
    attempt: int,
    max_attempts: int,
    i: int,
)
    requires
        0 <= i < outcomes.len(),
        attempt + i <= max_attempts,
        forall|j: int| 0 <= j < i ==> #[trigger] outcomes[j] == AttemptOutcome::Retryable,
    ensures
        outcomes[i] == AttemptOutcome::Delivered ==> delivery(outcomes, attempt, max_attempts)
            == Some((attempt + i, Course::Done)),
        outcomes[i] == AttemptOutcome::PermanentFailure ==> delivery(
            outcomes,
            attempt,
            max_attempts,
        ) == Some((attempt + i, Course::GiveUp)),
    decreases i,
{
    if i > 0 {
        assert(outcomes[0] == AttemptOutcome::Retryable);
        let rest = outcomes.skip(1);
        assert forall|j: int| 0 <= j < i - 1 implies #[trigger] rest[j]
            == AttemptOutcome::Retryable by {
            assert(rest[j] == outcomes[j + 1]);
        }
        law_first_decided_attempt_ends_it(rest, attempt + 1, max_attempts, i - 1);
    }
}

/// A delivery carries its event, its attempt, its moment and a signature of just its body.
pub proof fn law_delivery_is_labelled(
    e: EnvelopeModel,
    secret: Seq<u8>,
    attempt: u32,
    timestamp: u64,
)
    ensures
        ({
            let h = delivery_headers(e, secret, attempt, timestamp);
            &&& h.len() == 7
            &&& h.contains(("content-type"@, "application/json"@))
            &&& h.contains(("x-purplewolf-schema"@, "purple-wolf.audit/v1"@))
            &&& h.contains(("x-purplewolf-event-id"@, e.event_id))
            &&& h.contains(("x-purplewolf-delivery-id"@, e.delivery_id))
            &&& h.contains(("x-purplewolf-attempt"@, text::decimal(attempt as nat)))
            &&& h.contains(("x-purplewolf-timestamp"@, text::decimal(timestamp as nat)))
            &&& h.contains(
                (
                    "x-purplewolf-signature"@,
                    signer::signature(secret, timestamp, delivery_body(e)),
                ),
            )
        }),
{
    let h = delivery_headers(e, secret, attempt, timestamp);
    assert(h[0] == ("content-type"@, "application/json"@));
    assert(h[1] == ("x-purplewolf-schema"@, "purple-wolf.audit/v1"@));
    assert(h[2] == ("x-purplewolf-event-id"@, e.event_id));
    assert(h[3] == ("x-purplewolf-delivery-id"@, e.delivery_id));
    assert(h[4] == ("x-purplewolf-attempt"@, text::decimal(attempt as nat)));
    assert(h[5] == ("x-purplewolf-timestamp"@, text::decimal(timestamp as nat)));
    assert(h[6].0 == "x-purplewolf-signature"@);
}

} // verus!
