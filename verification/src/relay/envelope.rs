//! The envelope in which an audit event is delivered.
use vstd::prelude::*;

use crate::audit;
use crate::json;
use crate::json::{json_string, push_object, push_optional};
use crate::labels;
use crate::labels::Labels;
use crate::relay::event::{AuditEvent, EventModel};
use crate::request;
use crate::request::Pair;
use crate::text;
use crate::text::{copy_text, decimal_text, push_text};

verus! {

/// The version of the envelope's schema.
pub const SCHEMA_V1: &'static str = "purple-wolf.audit/v1";

/// A moment: the seconds since 1970, and the moment in RFC 3339.
#[derive(Debug, PartialEq, Eq)]
pub struct Moment {
    pub secs: u64,
    pub text: String,
}

/// What a moment says.
pub struct MomentModel {
    pub secs: u64,
    pub text: Seq<char>,
}

impl View for Moment {
    type V = MomentModel;

    open spec fn view(&self) -> MomentModel {
        MomentModel { secs: self.secs, text: self.text@ }
    }
}

/// `chrono::Utc::now`, with its seconds and its RFC 3339 form. Nothing is
/// claimed of it.
#[verifier::external_body]
pub(crate) fn utc_now() -> Moment {
    let now = chrono::Utc::now();
    Moment {
        secs: now.timestamp() as u64,
        text: now.to_rfc3339_opts(chrono::SecondsFormat::AutoSi, true),
    }
}

/// A digit of the base in which identifiers are written.
pub open spec fn is_ulid_char(c: char) -> bool {
    ||| '0' <= c && c <= '9'
    ||| 'A' <= c && c <= 'Z' && c != 'I' && c != 'L' && c != 'O' && c != 'U'
}

/// The form of an identifier.
pub open spec fn is_ulid(s: Seq<char>) -> bool {
    s.len() == 26 && forall|i: int| 0 <= i < s.len() ==> is_ulid_char(#[trigger] s[i])
}

/// `ulid::Ulid::new`, in its text form: 26 digits in Crockford's base 32. Which
/// ones is up to the time and to chance.
#[verifier::external_body]
pub(crate) fn fresh_ulid() -> (r: String)
    ensures
        is_ulid(r@),
{
    ulid::Ulid::new().to_string()
}

/// Where an event came from.
#[derive(Debug)]
pub struct EnvelopeSource {
    /// The middleware.
    pub middleware: Option<String>,
    /// The router.
    pub router: Option<String>,
    /// The entry point.
    pub entry_point: Option<String>,
    /// The name of the relay.
    pub relay_instance: String,
}

/// Where an event came from, by its texts.
pub struct SourceModel {
    pub middleware: Option<Seq<char>>,
    pub router: Option<Seq<char>>,
    pub entry_point: Option<Seq<char>>,
    pub relay_instance: Seq<char>,
}

impl View for EnvelopeSource {
    type V = SourceModel;

    open spec fn view(&self) -> SourceModel {
        SourceModel {
            middleware: audit::opt_view(self.middleware),
            router: audit::opt_view(self.router),
            entry_point: audit::opt_view(self.entry_point),
            relay_instance: self.relay_instance@,
        }
    }
}

/// An audit event on its way to a subscriber.
#[derive(Debug)]
pub struct Envelope {
    /// The version of the schema.
    pub schema: String,
    /// The event's identifier: the same for every attempt.
    pub event_id: String,
    /// The delivery's identifier: another one for each attempt.
    pub delivery_id: String,
    /// When the attempt started.
    pub delivered_at: Moment,
    /// The number of the attempt, from 1.
    pub attempt: u32,
    /// The labels.
    pub labels: Labels,
    /// Where the event came from.
    pub source: EnvelopeSource,
    /// The event.
    pub event: AuditEvent,
}

/// What an envelope holds.
#[verifier::ext_equal]
pub struct EnvelopeModel {
    pub schema: Seq<char>,
    pub event_id: Seq<char>,
    pub delivery_id: Seq<char>,
    pub delivered_at: MomentModel,
    pub attempt: u32,
    pub labels: Seq<Pair>,
    pub source: SourceModel,
    pub event: EventModel,
}

impl View for Envelope {
    type V = EnvelopeModel;

    open spec fn view(&self) -> EnvelopeModel {
        EnvelopeModel {
            schema: self.schema@,
            event_id: self.event_id@,
            delivery_id: self.delivery_id@,
            delivered_at: self.delivered_at@,
            attempt: self.attempt,
            labels: request::pairs(self.labels.entries@),
            source: self.source@,
            event: self.event@,
        }
    }
}

/// The envelope of a first attempt.
pub open spec fn first_envelope(
    event: EventModel,
    source: SourceModel,
    label_entries: Seq<Pair>,
    id: Seq<char>,
    at: MomentModel,
) -> EnvelopeModel {
    EnvelopeModel {
        schema: SCHEMA_V1@,
        event_id: id,
        delivery_id: id,
        delivered_at: at,
        attempt: 1,
        labels: label_entries,
        source,
        event,
    }
}

/// The envelope of a further attempt: what identifies the event stays.
pub open spec fn next_envelope(e: EnvelopeModel, n: u32, id: Seq<char>, at: MomentModel) -> EnvelopeModel {
    EnvelopeModel { delivery_id: id, delivered_at: at, attempt: n, ..e }
}

/// The envelope as JSON text. Labels appear only where there are any.
pub open spec fn envelope_json(e: EnvelopeModel) -> Seq<char> {
    "{\"schema\":"@ + json::quoted(e.schema) + ",\"event_id\":"@ + json::quoted(e.event_id)
        + ",\"delivery_id\":"@ + json::quoted(e.delivery_id) + ",\"delivered_at\":"@ + json::quoted(
        e.delivered_at.text,
    ) + ",\"attempt\":"@ + text::decimal(e.attempt as nat) + (if e.labels.len() > 0 {
        ",\"labels\":"@ + json::object(e.labels)
    } else {
        Seq::empty()
    }) + ",\"source\":{\"middleware\":"@ + json::optional(e.source.middleware) + ",\"router\":"@
        + json::optional(e.source.router) + ",\"entry_point\":"@ + json::optional(
        e.source.entry_point,
    ) + ",\"relay_instance\":"@ + json::quoted(e.source.relay_instance) + "},\"event\":"@
        + e.event.json + "}"@
}

fn copy_opt(o: &Option<String>) -> (r: Option<String>)
    ensures
        audit::opt_view(r) == audit::opt_view(*o),
{
    match o {
        Some(s) => Some(copy_text(s)),
        None => None,
    }
}

impl Envelope {
    /// The envelope of a first attempt, with a given identifier and moment.
    pub fn assemble(
        event: AuditEvent,
        source: EnvelopeSource,
        labels: Labels,
        id: String,
        at: Moment,
    ) -> (r: Envelope)
        ensures
            r@ == first_envelope(
                event@,
                source@,
                request::pairs(labels.entries@),
                id@,
                at@,
            ),
            r.labels == labels,
    {
        Envelope {
            schema: copy_text(SCHEMA_V1),
            event_id: copy_text(&id),
            delivery_id: id,
            delivered_at: at,
            attempt: 1,
            labels,
            source,
            event,
        }
    }

    /// The envelope of a first attempt.
    pub fn new(event: AuditEvent, source: EnvelopeSource, labels: Labels) -> (r: Envelope)
        ensures
            is_ulid(r@.event_id),
            r@ == first_envelope(
                event@,
                source@,
                request::pairs(labels.entries@),
                r@.event_id,
                r@.delivered_at,
            ),
            r.labels == labels,
    {
        Envelope::assemble(event, source, labels, fresh_ulid(), utc_now())
    }

    /// The envelope of attempt `n`, with a given identifier and moment.
    pub fn reissued(self, n: u32, id: String, at: Moment) -> (r: Envelope)
        ensures
            r@ == next_envelope(self@, n, id@, at@),
            r.labels == self.labels,
    {
        let mut e = self;
        e.delivery_id = id;
        e.delivered_at = at;
        e.attempt = n;
        e
    }

    /// The envelope of attempt `n`: the delivery gets a new identifier.
    pub fn with_attempt(self, n: u32) -> (r: Envelope)
        ensures
            is_ulid(r@.delivery_id),
            r@ == next_envelope(self@, n, r@.delivery_id, r@.delivered_at),
            r.labels == self.labels,
    {
        self.reissued(n, fresh_ulid(), utc_now())
    }

    /// A copy of the envelope.
    pub fn copy(&self) -> (r: Envelope)
        ensures
            r@ == self@,
            self.labels.wf() ==> r.labels.wf(),
    {
        let r = Envelope {
            schema: copy_text(&self.schema),
            event_id: copy_text(&self.event_id),
            delivery_id: copy_text(&self.delivery_id),
            delivered_at: Moment {
                secs: self.delivered_at.secs,
                text: copy_text(&self.delivered_at.text),
            },
            attempt: self.attempt,
            labels: self.labels.copy(),
            source: EnvelopeSource {
                middleware: copy_opt(&self.source.middleware),
                router: copy_opt(&self.source.router),
                entry_point: copy_opt(&self.source.entry_point),
                relay_instance: copy_text(&self.source.relay_instance),
            },
            event: self.event.copy(),
        };
        r
    }

    /// Writes the envelope as JSON.
    pub fn to_json(&self) -> (r: String)
        ensures
            r@ == envelope_json(self@),
    {
        let mut out = copy_text("{\"schema\":");
        push_text(&mut out, &json_string(&self.schema));
        push_text(&mut out, ",\"event_id\":");
        push_text(&mut out, &json_string(&self.event_id));
        push_text(&mut out, ",\"delivery_id\":");
        push_text(&mut out, &json_string(&self.delivery_id));
        push_text(&mut out, ",\"delivered_at\":");
        push_text(&mut out, &json_string(&self.delivered_at.text));
        push_text(&mut out, ",\"attempt\":");
        push_text(&mut out, &decimal_text(self.attempt as u64));
        let ghost front = out@;
        if self.labels.len() > 0 {
            push_text(&mut out, ",\"labels\":");
            push_object(&mut out, &self.labels.entries);
            assert(out@ =~= front + (",\"labels\":"@ + json::object(self@.labels)));
        } else {
            assert(front =~= front + Seq::<char>::empty());
        }
        push_text(&mut out, ",\"source\":{\"middleware\":");
        push_optional(&mut out, &self.source.middleware);
        push_text(&mut out, ",\"router\":");
        push_optional(&mut out, &self.source.router);
        push_text(&mut out, ",\"entry_point\":");
        push_optional(&mut out, &self.source.entry_point);
        push_text(&mut out, ",\"relay_instance\":");
        push_text(&mut out, &json_string(&self.source.relay_instance));
        push_text(&mut out, "},\"event\":");
        push_text(&mut out, &self.event.json);
        push_text(&mut out, "}");
        out
    }
}

/// However often a delivery is tried, the event keeps its identifier, its labels
/// and its contents, so that a subscriber can tell a repeated delivery.
pub proof fn law_event_identity_is_stable(e: EnvelopeModel, n: u32, id: Seq<char>, at: MomentModel)
    ensures
        ({
            let f = next_envelope(e, n, id, at);
            &&& f.event_id == e.event_id
            &&& f.schema == e.schema
            &&& f.labels == e.labels
            &&& f.source == e.source
            &&& f.event == e.event
            &&& f.attempt == n
        }),
{
}

// ---------------------------------------------------------------------------
// Reading an envelope
// ---------------------------------------------------------------------------
/// What follows the attempt's number.
spec fn json_end(e: EnvelopeModel) -> Seq<char> {
    ",\"source\":{\"middleware\":"@ + (json::optional(e.source.middleware) + (",\"router\":"@ + (
    json::optional(e.source.router) + (",\"entry_point\":"@ + (json::optional(e.source.entry_point)
        + (",\"relay_instance\":"@ + (json::quoted(e.source.relay_instance) + ("},\"event\":"@ + (
    e.event.json + "}"@)))))))))
}

/// The labels, where there are any, and what follows.
spec fn json_labels(e: EnvelopeModel) -> Seq<char> {
    if e.labels.len() > 0 {
        ",\"labels\":"@ + (json::object(e.labels) + json_end(e))
    } else {
        json_end(e)
    }
}

/// The envelope as JSON text, read from the left.
spec fn json_start(e: EnvelopeModel) -> Seq<char> {
    "{\"schema\":"@ + (json::quoted(e.schema) + (",\"event_id\":"@ + (json::quoted(e.event_id) + (
    ",\"delivery_id\":"@ + (json::quoted(e.delivery_id) + (",\"delivered_at\":"@ + (json::quoted(
        e.delivered_at.text,
    ) + (",\"attempt\":"@ + (text::decimal(e.attempt as nat) + json_labels(e))))))))))
}

proof fn lemma_read_from_the_left(e: EnvelopeModel)
    ensures
        envelope_json(e) == json_start(e),
{
    let labels = if e.labels.len() > 0 {
        ",\"labels\":"@ + json::object(e.labels)
    } else {
        Seq::empty()
    };
    let p0 = "{\"schema\":"@;
    let p1 = p0 + json::quoted(e.schema);
    let p2 = p1 + ",\"event_id\":"@;
    let p3 = p2 + json::quoted(e.event_id);
    let p4 = p3 + ",\"delivery_id\":"@;
    let p5 = p4 + json::quoted(e.delivery_id);
    let p6 = p5 + ",\"delivered_at\":"@;
    let p7 = p6 + json::quoted(e.delivered_at.text);
    let p8 = p7 + ",\"attempt\":"@;
    let p9 = p8 + text::decimal(e.attempt as nat);
    let p10 = p9 + labels;
    let p11 = p10 + ",\"source\":{\"middleware\":"@;
    let p12 = p11 + json::optional(e.source.middleware);
    let p13 = p12 + ",\"router\":"@;
    let p14 = p13 + json::optional(e.source.router);
    let p15 = p14 + ",\"entry_point\":"@;
    let p16 = p15 + json::optional(e.source.entry_point);
    let p17 = p16 + ",\"relay_instance\":"@;
    let p18 = p17 + json::quoted(e.source.relay_instance);
    let p19 = p18 + "},\"event\":"@;
    let p20 = p19 + e.event.json;
    let t21 = "}"@;
    let t20 = e.event.json + t21;
    json::lemma_regroup(p19, e.event.json, t21);
    let t19 = "},\"event\":"@ + t20;
    json::lemma_regroup(p18, "},\"event\":"@, t20);
    let t18 = json::quoted(e.source.relay_instance) + t19;
    json::lemma_regroup(p17, json::quoted(e.source.relay_instance), t19);
    let t17 = ",\"relay_instance\":"@ + t18;
    json::lemma_regroup(p16, ",\"relay_instance\":"@, t18);
    let t16 = json::optional(e.source.entry_point) + t17;
    json::lemma_regroup(p15, json::optional(e.source.entry_point), t17);
    let t15 = ",\"entry_point\":"@ + t16;
    json::lemma_regroup(p14, ",\"entry_point\":"@, t16);
    let t14 = json::optional(e.source.router) + t15;
    json::lemma_regroup(p13, json::optional(e.source.router), t15);
    let t13 = ",\"router\":"@ + t14;
    json::lemma_regroup(p12, ",\"router\":"@, t14);
    let t12 = json::optional(e.source.middleware) + t13;
    json::lemma_regroup(p11, json::optional(e.source.middleware), t13);
    let t11 = ",\"source\":{\"middleware\":"@ + t12;
    json::lemma_regroup(p10, ",\"source\":{\"middleware\":"@, t12);
    let t10 = labels + t11;
    json::lemma_regroup(p9, labels, t11);
    let t9 = text::decimal(e.attempt as nat) + t10;
    json::lemma_regroup(p8, text::decimal(e.attempt as nat), t10);
    let t8 = ",\"attempt\":"@ + t9;
    json::lemma_regroup(p7, ",\"attempt\":"@, t9);
    let t7 = json::quoted(e.delivered_at.text) + t8;
    json::lemma_regroup(p6, json::quoted(e.delivered_at.text), t8);
    let t6 = ",\"delivered_at\":"@ + t7;
    json::lemma_regroup(p5, ",\"delivered_at\":"@, t7);
    let t5 = json::quoted(e.delivery_id) + t6;
    json::lemma_regroup(p4, json::quoted(e.delivery_id), t6);
    let t4 = ",\"delivery_id\":"@ + t5;
    json::lemma_regroup(p3, ",\"delivery_id\":"@, t5);
    let t3 = json::quoted(e.event_id) + t4;
    json::lemma_regroup(p2, json::quoted(e.event_id), t4);
    let t2 = ",\"event_id\":"@ + t3;
    json::lemma_regroup(p1, ",\"event_id\":"@, t3);
    let t1 = json::quoted(e.schema) + t2;
    json::lemma_regroup(p0, json::quoted(e.schema), t2);
    assert(t11 == json_end(e));
    if e.labels.len() > 0 {
        json::lemma_regroup(",\"labels\":"@, json::object(e.labels), t11);
    } else {
        assert(labels + t11 =~= t11);
    }
    assert(t10 == json_labels(e));
}

proof fn lemma_end_tells(a: EnvelopeModel, b: EnvelopeModel)
    requires
        json_end(a) == json_end(b),
    ensures
        a.source == b.source,
        a.event.json == b.event.json,
{
    let (s, t) = (a.source, b.source);
    let (a1, b1) = (a.event.json + "}"@, b.event.json + "}"@);
    let (a2, b2) = ("},\"event\":"@ + a1, "},\"event\":"@ + b1);
    let (a3, b3) = (
        ",\"relay_instance\":"@ + (json::quoted(s.relay_instance) + a2),
        ",\"relay_instance\":"@ + (json::quoted(t.relay_instance) + b2),
    );
    let (a4, b4) = (
        ",\"entry_point\":"@ + (json::optional(s.entry_point) + a3),
        ",\"entry_point\":"@ + (json::optional(t.entry_point) + b3),
    );
    let (a5, b5) = (
        ",\"router\":"@ + (json::optional(s.router) + a4),
        ",\"router\":"@ + (json::optional(t.router) + b4),
    );
    json::lemma_same_start(
        ",\"source\":{\"middleware\":"@,
        json::optional(s.middleware) + a5,
        json::optional(t.middleware) + b5,
    );
    json::lemma_optional_ends(s.middleware, a5, t.middleware, b5);
    json::lemma_same_start(
        ",\"router\":"@,
        json::optional(s.router) + a4,
        json::optional(t.router) + b4,
    );
    json::lemma_optional_ends(s.router, a4, t.router, b4);
    json::lemma_same_start(
        ",\"entry_point\":"@,
        json::optional(s.entry_point) + a3,
        json::optional(t.entry_point) + b3,
    );
    json::lemma_optional_ends(s.entry_point, a3, t.entry_point, b3);
    json::lemma_same_start(
        ",\"relay_instance\":"@,
        json::quoted(s.relay_instance) + a2,
        json::quoted(t.relay_instance) + b2,
    );
    json::lemma_quoted_ends(s.relay_instance, a2, t.relay_instance, b2);
    json::lemma_same_start("},\"event\":"@, a1, b1);
    assert(a1.drop_last() =~= a.event.json) by {
        reveal_strlit("}");
    }
    assert(b1.drop_last() =~= b.event.json) by {
        reveal_strlit("}");
    }
}

proof fn lemma_labels_tell(a: EnvelopeModel, b: EnvelopeModel)
    requires
        json_labels(a) == json_labels(b),
    ensures
        a.labels == b.labels,
        json_end(a) == json_end(b),
{
    reveal_strlit(",\"labels\":");
    reveal_strlit(",\"source\":{\"middleware\":");
    let s = json_labels(a);
    assert(s[2] == if a.labels.len() > 0 {
        'l'
    } else {
        's'
    });
    assert(s[2] == if b.labels.len() > 0 {
        'l'
    } else {
        's'
    });
    if a.labels.len() > 0 {
        let p = json::object(a.labels) + json_end(a);
        let q = json::object(b.labels) + json_end(b);
        json::lemma_same_start(",\"labels\":"@, p, q);
        json::lemma_object_ends(a.labels, json_end(a), b.labels, json_end(b));
    } else {
        assert(a.labels =~= b.labels);
    }
}

/// The JSON text of an envelope tells everything that it was written from: no two
/// envelopes that differ in anything that is written have the same text.
pub proof fn law_json_tells_the_envelope(a: EnvelopeModel, b: EnvelopeModel)
    requires
        envelope_json(a) == envelope_json(b),
    ensures
        a.schema == b.schema,
        a.event_id == b.event_id,
        a.delivery_id == b.delivery_id,
        a.delivered_at.text == b.delivered_at.text,
        a.attempt == b.attempt,
        a.labels == b.labels,
        a.source == b.source,
        a.event.json == b.event.json,
{
    lemma_read_from_the_left(a);
    lemma_read_from_the_left(b);
    let (a1, b1) = (
        text::decimal(a.attempt as nat) + json_labels(a),
        text::decimal(b.attempt as nat) + json_labels(b),
    );
    let (a2, b2) = (",\"attempt\":"@ + a1, ",\"attempt\":"@ + b1);
    let (a3, b3) = (
        ",\"delivered_at\":"@ + (json::quoted(a.delivered_at.text) + a2),
        ",\"delivered_at\":"@ + (json::quoted(b.delivered_at.text) + b2),
    );
    let (a4, b4) = (
        ",\"delivery_id\":"@ + (json::quoted(a.delivery_id) + a3),
        ",\"delivery_id\":"@ + (json::quoted(b.delivery_id) + b3),
    );
    let (a5, b5) = (
        ",\"event_id\":"@ + (json::quoted(a.event_id) + a4),
        ",\"event_id\":"@ + (json::quoted(b.event_id) + b4),
    );
    json::lemma_same_start(
        "{\"schema\":"@,
        json::quoted(a.schema) + a5,
        json::quoted(b.schema) + b5,
    );
    json::lemma_quoted_ends(a.schema, a5, b.schema, b5);
    json::lemma_same_start(
        ",\"event_id\":"@,
        json::quoted(a.event_id) + a4,
        json::quoted(b.event_id) + b4,
    );
    json::lemma_quoted_ends(a.event_id, a4, b.event_id, b4);
    json::lemma_same_start(
        ",\"delivery_id\":"@,
        json::quoted(a.delivery_id) + a3,
        json::quoted(b.delivery_id) + b3,
    );
    json::lemma_quoted_ends(a.delivery_id, a3, b.delivery_id, b3);
    json::lemma_same_start(
        ",\"delivered_at\":"@,
        json::quoted(a.delivered_at.text) + a2,
        json::quoted(b.delivered_at.text) + b2,
    );
    json::lemma_quoted_ends(a.delivered_at.text, a2, b.delivered_at.text, b2);
    json::lemma_same_start(",\"attempt\":"@, a1, b1);
    reveal_strlit(",\"labels\":");
    reveal_strlit(",\"source\":{\"middleware\":");
    assert(json_labels(a)[0] == ',');
    assert(json_labels(b)[0] == ',');
    text::lemma_decimal_ends(a.attempt as nat, json_labels(a), b.attempt as nat, json_labels(b));
    lemma_labels_tell(a, b);
    lemma_end_tells(a, b);
}

/// An event's first envelope is its first attempt, under one identifier for both the event
/// and the delivery.
pub proof fn law_first_envelope_is_the_first_attempt(
    event: EventModel,
    source: SourceModel,
    label_entries: Seq<Pair>,
    id: Seq<char>,
    at: MomentModel,
)
    ensures
        ({
            let e = first_envelope(event, source, label_entries, id, at);
            &&& e.attempt == 1
            &&& e.schema == "purple-wolf.audit/v1"@
            &&& e.event_id == id && e.delivery_id == id
            &&& e.delivered_at == at
            &&& e.labels == label_entries && e.source == source && e.event == event
        }),
{
}

} // verus!
