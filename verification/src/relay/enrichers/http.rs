//! Labels out of a service that is asked over HTTP.
use percent_encoding::percent_encode_byte;
use std::collections::BTreeMap;
use vstd::prelude::*;
use vstd::utf8::*;

use crate::bytes;
use crate::bytes::text_bytes;
use crate::labels;
use crate::labels::Labels;
use crate::relay::enrichers;
use crate::relay::enrichers::cache;
use crate::relay::enrichers::cache::{Cache, Row};
use crate::relay::enrichers::{merge_in_place, Enricher, LabelMap, Reply, Step};
use crate::request;
use crate::request::Pair;
use crate::text;
use crate::text::{chars_of, copy_text, push_text, stands_at_chars};

verus! {

// ---------------------------------------------------------------------------
// The address
// ---------------------------------------------------------------------------
/// A byte that may not stand as it is where a value goes into an address: not
/// ASCII, a control character, or one that means something in an address.
pub open spec fn is_structural(b: u8) -> bool {
    ||| b >= 128
    ||| b < 32
    ||| b == 127
    ||| b == '%' as u8
    ||| b == '/' as u8
    ||| b == '\\' as u8
    ||| b == '?' as u8
    ||| b == '#' as u8
    ||| b == '&' as u8
    ||| b == '=' as u8
    ||| b == '@' as u8
    ||| b == ':' as u8
    ||| b == ' ' as u8
    ||| b == '.' as u8
}

fn structural_byte(b: u8) -> (r: bool)
    ensures
        r == is_structural(b),
{
    b >= 128 || b < 32 || b == 127 || b == '%' as u8 || b == '/' as u8 || b == '\\' as u8
        || b == '?' as u8 || b == '#' as u8 || b == '&' as u8 || b == '=' as u8 || b == '@' as u8
        || b == ':' as u8 || b == ' ' as u8 || b == '.' as u8
}

/// A hexadecimal digit, in upper case.
pub open spec fn upper_hex(d: int) -> char {
    if d < 10 {
        (48 + d) as char
    } else {
        (55 + d) as char
    }
}

/// A byte as a percent sign and two digits.
pub open spec fn percent_triplet(b: u8) -> Seq<char> {
    seq!['%', upper_hex(b as int / 16), upper_hex(b as int % 16)]
}

/// `percent_encoding::percent_encode_byte`: a percent sign and the two hexadecimal
/// digits of the byte, in upper case.
pub assume_specification[ percent_encode_byte ](byte: u8) -> (r: &'static str)
    ensures
        r@ == percent_triplet(byte),
;

/// A byte of a value in an address.
pub open spec fn encoded_byte(b: u8) -> Seq<char> {
    if is_structural(b) {
        percent_triplet(b)
    } else {
        seq![b as char]
    }
}

/// Bytes of a value in an address.
pub open spec fn encoded(bytes: Seq<u8>) -> Seq<char>
    decreases bytes.len(),
{
    if bytes.len() == 0 {
        Seq::empty()
    } else {
        encoded(bytes.drop_last()) + encoded_byte(bytes.last())
    }
}

/// A value as it stands in an address: one component that changes nothing else.
pub fn encode_value(value: &str) -> (r: String)
    ensures
        r@ == encoded(encode_utf8(value@)),
{
    let bytes = text_bytes(value);
    let mut out = String::new();
    let mut i: usize = 0;
    assert(bytes@.take(0) =~= Seq::<u8>::empty());
    while i < bytes.len()
        invariant
            i <= bytes@.len(),
            out@ == encoded(bytes@.take(i as int)),
        decreases bytes@.len() - i,
    {
        let b: u8 = bytes[i];
        let ghost before = out@;
        assert(bytes@.take(i + 1).drop_last() =~= bytes@.take(i as int));
        assert(bytes@.take(i + 1).last() == b);
        if structural_byte(b) {
            push_text(&mut out, percent_encode_byte(b));
        } else {
            out.push(b as char);
            assert(out@ =~= before + seq![b as char]);
        }
        i = i + 1;
    }
    assert(bytes@.take(i as int) =~= bytes@);
    out
}

/// What stands for the value in a template.
pub const PLACEHOLDER: &'static str = "{value}";

/// A template with every placeholder replaced.
pub open spec fn filled(template: Seq<char>, mark: Seq<char>, value: Seq<char>) -> Seq<char>
    decreases template.len(),
{
    if template.len() == 0 || mark.len() == 0 {
        template
    } else if text::stands_at(template, mark, 0) {
        value + filled(template.skip(mark.len() as int), mark, value)
    } else {
        seq![template[0]] + filled(template.skip(1), mark, value)
    }
}

/// The address for a value.
pub open spec fn enrich_url(template: Seq<char>, value: Seq<char>) -> Seq<char> {
    filled(template, PLACEHOLDER@, encoded(encode_utf8(value)))
}

/// The address for a value: the template with the value, encoded, in place of each
/// placeholder.
pub fn build_enrich_url(template: &str, value: &str) -> (r: String)
    ensures
        r@ == enrich_url(template@, value@),
{
    let value = encode_value(value);
    let t = chars_of(template);
    let mark = chars_of(PLACEHOLDER);
    proof {
        reveal_strlit("{value}");
    }
    let mut out = String::new();
    let mut i: usize = 0;
    assert(t@.skip(0) =~= t@);
    assert(out@ + filled(t@, mark@, value@) =~= filled(t@, mark@, value@));
    while i < t.len()
        invariant
            i <= t@.len(),
            mark@.len() == 7,
            filled(t@, mark@, value@) == out@ + filled(t@.skip(i as int), mark@, value@),
        decreases t@.len() - i,
    {
        let ghost rest = t@.skip(i as int);
        let ghost before = out@;
        if stands_at_chars(&t, &mark, i) {
            assert(text::stands_at(rest, mark@, 0)) by {
                assert(rest.subrange(0, 7) =~= t@.subrange(i as int, i + 7));
            }
            assert(rest.skip(7) =~= t@.skip(i + 7));
            push_text(&mut out, &value);
            assert(before + (value@ + filled(rest.skip(7), mark@, value@)) =~= out@ + filled(
                rest.skip(7),
                mark@,
                value@,
            ));
            i = i + mark.len();
        } else {
            assert(!text::stands_at(rest, mark@, 0)) by {
                if rest.len() >= 7 {
                    assert(rest.subrange(0, 7) =~= t@.subrange(i as int, i + 7));
                }
            }
            assert(rest.skip(1) =~= t@.skip(i + 1));
            out.push(t[i]);
            assert(before + (seq![rest[0]] + filled(rest.skip(1), mark@, value@)) =~= out@ + filled(
                rest.skip(1),
                mark@,
                value@,
            ));
            i = i + 1;
        }
    }
    assert(out@ + filled(t@.skip(i as int), mark@, value@) =~= out@);
    out
}

/// An encoded value holds no character that means something in an address, but
/// for the percent signs of the encoding.
pub proof fn law_encoded_value_is_one_component(bytes: Seq<u8>, i: int)
    requires
        0 <= i < encoded(bytes).len(),
    ensures
        ({
            let c = encoded(bytes)[i];
            c == '%' || ((c as u32) < 128 && !is_structural(c as u8))
        }),
    decreases bytes.len(),
{
    let front = encoded(bytes.drop_last());
    let b = bytes.last();
    if i < front.len() {
        law_encoded_value_is_one_component(bytes.drop_last(), i);
    } else {
        let k = i - front.len();
        assert(encoded(bytes)[i] == encoded_byte(b)[k]);
        if is_structural(b) && k > 0 {
            let d = if k == 1 {
                b as int / 16
            } else {
                b as int % 16
            };
            assert(encoded(bytes)[i] == upper_hex(d));
        }
    }
}

/// What stands before the first placeholder stands there in every address, so
/// that no value changes the scheme, the host or the path up to it.
pub proof fn law_template_start_is_kept(
    start: Seq<char>,
    rest: Seq<char>,
    value: Seq<char>,
)
    requires
        !start.contains('{'),
    ensures
        enrich_url(start + rest, value) == start + enrich_url(rest, value),
    decreases start.len(),
{
    reveal_strlit("{value}");
    let mark = PLACEHOLDER@;
    assert(mark[0] == '{');
    let all = start + rest;
    if start.len() == 0 {
        assert(all =~= rest);
        assert(start + enrich_url(rest, value) =~= enrich_url(rest, value));
    } else {
        let tail = start.skip(1);
        assert(!tail.contains('{')) by {
            if tail.contains('{') {
                let i = choose|i: int| 0 <= i < tail.len() && tail[i] == '{';
                assert(start[i + 1] == '{');
            }
        }
        assert(start[0] != '{');
        if text::stands_at(all, mark, 0) {
            assert(all.subrange(0, 7)[0] == mark[0]);
        }
        assert(all.skip(1) =~= tail + rest);
        law_template_start_is_kept(tail, rest, value);
        assert(seq![start[0]] + (tail + enrich_url(rest, value)) =~= start + enrich_url(
            rest,
            value,
        ));
    }
}

// ---------------------------------------------------------------------------
// The enricher
// ---------------------------------------------------------------------------
/// Seconds in nanoseconds, as far as they fit.
pub open spec fn nanoseconds(s: int) -> int {
    if s * 1_000_000_000 <= u64::MAX {
        s * 1_000_000_000
    } else {
        u64::MAX as int
    }
}

/// Seconds in nanoseconds, as far as they fit.
pub fn seconds(s: u64) -> (r: u64)
    ensures
        r == nanoseconds(s as int),
{
    if s <= u64::MAX / 1_000_000_000 {
        s * 1_000_000_000
    } else {
        u64::MAX
    }
}

/// The labels that a body holds: the members of a JSON object of texts.
pub uninterp spec fn json_labels(body: Seq<u8>) -> Option<Seq<Pair>>;

/// Labels that were read, by their texts.
pub open spec fn opt_pairs(o: Option<Vec<(String, String)>>) -> Option<Seq<Pair>> {
    match o {
        Some(v) => Some(request::pairs(v@)),
        None => None,
    }
}

/// `serde_json::from_slice` into a map from text to text. What it reads depends on
/// the body alone.
#[verifier::external_body]
fn read_labels(body: &[u8]) -> (r: Option<Vec<(String, String)>>)
    ensures
        opt_pairs(r) == json_labels(body@),
{
    let map: BTreeMap<String, String> = serde_json::from_slice(body).ok()?;
    Some(map.into_iter().collect())
}

/// A response that says yes.
pub open spec fn is_success(status: u16) -> bool {
    200 <= status <= 299
}

/// The labels that a reply brings.
pub open spec fn reply_labels(reply: Reply) -> Option<Seq<Pair>> {
    match reply {
        Reply::Answer { status, body } => if is_success(status) {
            json_labels(body@)
        } else {
            None
        },
        Reply::Failed => None,
    }
}

/// Asks a service for labels, by the value of one label.
pub struct HttpEnricher {
    /// The label.
    pub on_label: String,
    /// The address, with a placeholder for the value.
    pub url_template: String,
    /// How long to wait, in milliseconds.
    pub timeout_ms: u64,
    /// How long to keep an answer, in nanoseconds; not at all if zero.
    pub cache_ttl: u64,
    /// The answers.
    pub cache: Cache,
}

impl HttpEnricher {
    /// An enricher without answers.
    pub fn new(
        on_label: String,
        url_template: String,
        timeout_ms: u64,
        cache_ttl: u64,
        cache_capacity: usize,
    ) -> (r: HttpEnricher)
        ensures
            r.wf(),
            r.on_label == on_label,
            r.url_template == url_template,
            r.timeout_ms == timeout_ms,
            r.cache_ttl == cache_ttl,
            r.cache.capacity == cache_capacity,
            r.cache@.len() == 0,
    {
        HttpEnricher {
            on_label,
            url_template,
            timeout_ms,
            cache_ttl,
            cache: Cache::new(cache_capacity),
        }
    }

    /// The settings, which no step changes.
    pub open spec fn same_settings(&self, other: HttpEnricher) -> bool {
        &&& self.on_label == other.on_label
        &&& self.url_template == other.url_template
        &&& self.timeout_ms == other.timeout_ms
        &&& self.cache_ttl == other.cache_ttl
        &&& self.cache.capacity == other.cache.capacity
    }

    /// When an answer that comes now will be too old.
    pub open spec fn expiry(&self, now: u64) -> u64 {
        if now + self.cache_ttl <= u64::MAX {
            (now + self.cache_ttl) as u64
        } else {
            u64::MAX
        }
    }

    /// The kept answer for a value.
    pub fn cache_get(&mut self, value: &str, now: u64) -> (r: Option<Labels>)
        requires
            old(self).wf(),
        ensures
            final(self).wf(),
            final(self).same_settings(*old(self)),
            final(self).cache@ == cache::read(old(self).cache@, value@, now).0,
            match r {
                Some(found) => cache::read(old(self).cache@, value@, now).1 == Some(
                    request::pairs(found.entries@),
                ),
                None => cache::read(old(self).cache@, value@, now).1 is None,
            },
    {
        self.cache.get(value, now)
    }

    /// Keeps the answer for a value.
    pub fn cache_put(&mut self, value: String, labels: Labels, now: u64)
        requires
            old(self).wf(),
        ensures
            final(self).wf(),
            final(self).same_settings(*old(self)),
            final(self).cache@ == cache::written(
                old(self).cache@,
                old(self).cache.capacity as nat,
                (Row {
                    value: value@,
                    labels: request::pairs(labels.entries@),
                    expires_at: old(self).expiry(now),
                }),
                now,
            ),
    {
        let expires_at: u64 = if now <= u64::MAX - self.cache_ttl {
            now + self.cache_ttl
        } else {
            u64::MAX
        };
        self.cache.put(value, labels, expires_at, now);
    }

    /// The number of answers.
    pub fn cache_len(&self) -> (r: usize)
        ensures
            r == self.cache@.len(),
    {
        self.cache.len()
    }
}

/// What an enrichment starts with.
pub enum Start {
    /// The label is missing.
    Skip,
    /// The answer is there.
    Kept(Seq<Pair>),
    /// The answer must be asked for.
    Ask(Seq<char>),
}

/// What an enrichment starts with.
pub open spec fn start(e: HttpEnricher, present: LabelMap, now: u64) -> Start {
    if !present.contains_key(e.on_label@) {
        Start::Skip
    } else {
        let value = present[e.on_label@];
        let kept = if e.cache_ttl == 0 {
            None
        } else {
            cache::read(e.cache@, value, now).1
        };
        match kept {
            Some(found) => Start::Kept(found),
            None => Start::Ask(value),
        }
    }
}

/// The answers behind the start of an enrichment.
pub open spec fn answers_after_start(e: HttpEnricher, present: LabelMap, now: u64) -> Seq<Row> {
    if !present.contains_key(e.on_label@) || e.cache_ttl == 0 {
        e.cache@
    } else {
        cache::read(e.cache@, present[e.on_label@], now).0
    }
}

/// What a row for a reply holds: its labels in ascending order.
pub open spec fn is_row_for(
    e: HttpEnricher,
    row: Row,
    value: Seq<char>,
    found: Seq<Pair>,
    now: u64,
) -> bool {
    &&& row.value == value
    &&& labels::as_map(row.labels) == labels::inserted(Map::empty(), found)
    &&& row.expires_at == e.expiry(now)
}

/// How an enrichment starts: what becomes of the enricher and the labels, and
/// what is to be done next.
pub open spec fn begun(
    before: HttpEnricher,
    present: LabelMap,
    now: u64,
    after: HttpEnricher,
    present_after: LabelMap,
    step: Step,
) -> bool {
    &&& after.same_settings(before)
    &&& after.cache@ == answers_after_start(before, present, now)
    &&& match start(before, present, now) {
        Start::Skip => step is Done && present_after == present,
        Start::Kept(found) => step is Done && present_after == enrichers::merged(
            present,
            labels::as_map(found),
        ),
        Start::Ask(value) => {
            &&& step is Fetch
            &&& step->value@ == value
            &&& step->url@ == enrich_url(before.url_template@, value)
            &&& present_after == present
        },
    }
}

/// What becomes of the enricher and the labels when an answer is read, or none.
pub open spec fn accepted(
    before: HttpEnricher,
    present: LabelMap,
    value: Seq<char>,
    found: Option<Seq<Pair>>,
    now: u64,
    after: HttpEnricher,
    present_after: LabelMap,
) -> bool {
    &&& after.same_settings(before)
    &&& match found {
        None => after == before && present_after == present,
        Some(found) => {
            &&& present_after == enrichers::merged(
                present,
                labels::inserted(Map::empty(), found),
            )
            &&& if before.cache_ttl == 0 {
                after.cache@ == before.cache@
            } else {
                exists|row: Row|
                    is_row_for(before, row, value, found, now) && after.cache@
                        == #[trigger] cache::written(
                        before.cache@,
                        before.cache.capacity as nat,
                        row,
                        now,
                    )
            }
        },
    }
}

impl HttpEnricher {
    /// Adds the labels that an answer holds, and keeps the answer.
    pub fn accept(
        &mut self,
        labels: &mut Labels,
        value: String,
        found: Option<Vec<(String, String)>>,
        now: u64,
    )
        requires
            old(self).wf(),
            old(labels).wf(),
        ensures
            final(self).wf(),
            final(labels).wf(),
            accepted(
                *old(self),
                old(labels)@,
                value@,
                opt_pairs(found),
                now,
                *final(self),
                final(labels)@,
            ),
    {
        match found {
            None => {},
            Some(list) => {
                let ghost members = request::pairs(list@);
                let extra = Labels::from_pairs(list);
                if self.cache_ttl != 0 {
                    let kept = extra.copy();
                    let ghost row = Row {
                        value: value@,
                        labels: request::pairs(kept.entries@),
                        expires_at: self.expiry(now),
                    };
                    self.cache_put(value, kept, now);
                    assert(is_row_for(*old(self), row, value@, members, now));
                }
                merge_in_place(labels, &extra);
            },
        }
    }
}

impl Enricher for HttpEnricher {
    open spec fn wf(&self) -> bool {
        self.cache.wf()
    }

    open spec fn title(&self) -> Seq<char> {
        "http"@
    }

    fn name(&self) -> (r: &'static str) {
        "http"
    }

    fn begin(&mut self, labels: &mut Labels, now: u64) -> (r: Step)
        ensures
            begun(*old(self), old(labels)@, now, *final(self), final(labels)@, r),
    {
        let value = match labels.get(&self.on_label) {
            Some(v) => copy_text(v),
            None => {
                return Step::Done;
            },
        };
        if self.cache_ttl != 0 {
            if let Some(found) = self.cache_get(&value, now) {
                merge_in_place(labels, &found);
                return Step::Done;
            }
        }
        let url = build_enrich_url(&self.url_template, &value);
        Step::Fetch { value, url }
    }

    fn finish(&mut self, labels: &mut Labels, value: String, reply: Reply, now: u64)
        ensures
            accepted(
                *old(self),
                old(labels)@,
                value@,
                reply_labels(reply),
                now,
                *final(self),
                final(labels)@,
            ),
    {
        let found = match &reply {
            Reply::Answer { status, body } => if 200 <= *status && *status <= 299 {
                read_labels(body)
            } else {
                None
            },
            Reply::Failed => None,
        };
        self.accept(labels, value, found, now);
    }
}

/// Each byte of a value is encoded by itself.
pub proof fn law_bytes_are_encoded_apart(a: Seq<u8>, b: Seq<u8>)
    ensures
        encoded(a + b) == encoded(a) + encoded(b),
    decreases b.len(),
{
    if b.len() == 0 {
        assert(a + b =~= a);
        assert(encoded(a) + encoded(b) =~= encoded(a));
    } else {
        law_bytes_are_encoded_apart(a, b.drop_last());
        assert((a + b).drop_last() =~= a + b.drop_last());
        assert((a + b).last() == b.last());
        assert(encoded(a + b) =~= encoded(a) + encoded(b));
    }
}

/// Characters below 128 as bytes.
pub open spec fn as_bytes(s: Seq<char>) -> Seq<u8> {
    s.map_values(|c: char| c as u8)
}

/// Decoding an encoded value gives the value back.
pub proof fn law_encoded_value_is_decoded_back(b: Seq<u8>)
    ensures
        bytes::percent_decoded(as_bytes(encoded(b))) == b,
    decreases b.len(),
{
    if b.len() == 0 {
        assert(as_bytes(encoded(b)) =~= Seq::<u8>::empty());
        assert(b =~= Seq::<u8>::empty());
    } else {
        let first = seq![b[0]];
        let rest = b.skip(1);
        assert(b =~= first + rest);
        law_bytes_are_encoded_apart(first, rest);
        law_encoded_value_is_decoded_back(rest);
        assert(encoded(first) == encoded_byte(b[0])) by {
            assert(first.drop_last() =~= Seq::<u8>::empty());
            assert(encoded(first.drop_last()) =~= Seq::<char>::empty());
            assert(Seq::<char>::empty() + encoded_byte(b[0]) =~= encoded_byte(b[0]));
        }
        let tail = as_bytes(encoded(rest));
        let head = as_bytes(encoded_byte(b[0]));
        assert(as_bytes(encoded(b)) =~= head + tail);
        if is_structural(b[0]) {
            let (x, y) = (b[0] as int / 16, b[0] as int % 16);
            let (high, low) = (upper_hex(x) as u8, upper_hex(y) as u8);
            assert(head =~= seq![0x25, high, low]);
            assert(bytes::is_digit_of(high, x));
            assert(bytes::is_digit_of(low, y));
            bytes::law_escape_gives_its_byte(high, low, x, y, tail);
        } else {
            assert(head =~= first);
            assert(!head.contains(0x25));
            bytes::law_plain_front_passes(head, tail);
        }
    }
}

/// Letters and digits are left as they are; what has a meaning in an address is not.
pub proof fn law_plain_characters_are_left(b: u8)
    ensures
        (48 <= b <= 57 || 65 <= b <= 90 || 97 <= b <= 122 || b == 45 || b == 95) ==> encoded_byte(b)
            == seq![b as char],
        (b <= 32 || b >= 127 || b == 35 || b == 37 || b == 38 || b == 46 || b == 47 || b == 58 || b
            == 61 || b == 63 || b == 64 || b == 92) ==> encoded_byte(b).len() == 3
            && encoded_byte(b)[0] == '%',
{
}

/// Every placeholder is filled with the encoded value, and the rest of the template after
/// it is filled in the same way. A brace that opens no placeholder stays.
pub proof fn law_each_placeholder_is_filled(rest: Seq<char>, value: Seq<char>)
    ensures
        enrich_url("{value}"@ + rest, value) == encoded(encode_utf8(value)) + enrich_url(
            rest,
            value,
        ),
        !text::has_prefix(seq!['{'] + rest, "{value}"@) ==> enrich_url(seq!['{'] + rest, value)
            == seq!['{'] + enrich_url(rest, value),
{
    reveal_strlit("{value}");
    let mark = "{value}"@;
    let all = mark + rest;
    assert(all.subrange(0, mark.len() as int) =~= mark);
    assert(all.skip(mark.len() as int) =~= rest);
    let t = seq!['{'] + rest;
    assert(t.skip(1) =~= rest);
    if text::stands_at(t, mark, 0) {
        assert(t.take(mark.len() as int) =~= t.subrange(0, mark.len() as int));
    }
}

/// Only an answer with a status of success counts.
pub proof fn law_only_success_counts(status: u16, body: Vec<u8>)
    ensures
        status / 100 == 2 ==> reply_labels(Reply::Answer { status, body }) == json_labels(body@),
        status / 100 != 2 ==> reply_labels(Reply::Answer { status, body }) is None,
        reply_labels(Reply::Failed) is None,
{
}

/// A time to keep answers is counted in nanoseconds, up to what can be counted.
pub proof fn law_time_is_counted_in_nanoseconds(s: int)
    requires
        s >= 0,
    ensures
        s * 1_000_000_000 <= u64::MAX ==> nanoseconds(s) == s * 1_000_000_000,
        s * 1_000_000_000 > u64::MAX ==> nanoseconds(s) == u64::MAX,
{
}

/// An answer that was accepted is used for the same value until its time has come, and is
/// asked for again after that.
pub proof fn law_answer_is_kept_for_its_time(
    before: HttpEnricher,
    present: LabelMap,
    value: Seq<char>,
    found: Seq<Pair>,
    now: u64,
    after: HttpEnricher,
    present_after: LabelMap,
    next: LabelMap,
    later: u64,
)
    requires
        accepted(before, present, value, Some(found), now, after, present_after),
        before.cache.wf(),
        before.cache.capacity > 0,
        before.cache_ttl > 0,
        now + before.cache_ttl <= u64::MAX,
        next.contains_key(before.on_label@),
        next[before.on_label@] == value,
    ensures
        later < now + before.cache_ttl ==> (start(after, next, later) matches Start::Kept(
            l,
        ) && labels::as_map(l) == labels::inserted(Map::empty(), found)),
        later >= now + before.cache_ttl ==> start(after, next, later) == Start::Ask(value),
{
    let row = choose|row: Row|
        is_row_for(before, row, value, found, now) && after.cache@ == #[trigger] cache::written(
            before.cache@,
            before.cache.capacity as nat,
            row,
            now,
        );
    cache::law_written_answer_is_read_back(
        before.cache@,
        before.cache.capacity as nat,
        row,
        now,
        later,
    );
}

/// A value without a kept answer is asked for, at the address for just that value; without
/// the label nothing is asked for. Where no answer is kept, each is asked for again.
pub proof fn law_unknown_value_is_asked_for(
    before: HttpEnricher,
    present: LabelMap,
    now: u64,
    after: HttpEnricher,
    present_after: LabelMap,
    step: Step,
)
    requires
        begun(before, present, now, after, present_after, step),
    ensures
        !present.contains_key(before.on_label@) ==> step is Done && present_after == present,
        present.contains_key(before.on_label@) && (before.cache_ttl == 0 || forall|i: int|
            0 <= i < before.cache@.len() ==> (#[trigger] before.cache@[i]).value
                != present[before.on_label@] || now >= before.cache@[i].expires_at) ==> {
            &&& step is Fetch
            &&& step->value@ == present[before.on_label@]
            &&& step->url@ == enrich_url(before.url_template@, present[before.on_label@])
            &&& present_after == present
        },
        enrichers::keeps_labels(present, present_after),
{
    if present.contains_key(before.on_label@) {
        cache::lemma_place(before.cache@, present[before.on_label@]);
    }
}

} // verus!
