//! What becomes of a line: an envelope with its labels, for the subscribers whose
//! filters it passes.
use vstd::prelude::*;

use crate::audit;
use crate::labels;
use crate::labels::Labels;
use crate::relay::config::SubscriberConfig;
use crate::relay::envelope;
use crate::relay::envelope::{Envelope, EnvelopeModel, EnvelopeSource, SourceModel};
use crate::relay::event;
use crate::relay::event::{AuditEvent, Member, MemberView};
use crate::relay::parser;
use crate::relay::parser::{parse_line, ParseError, ParsedAudit, ParsedModel};
use crate::relay::subscribers::filter;
use crate::relay::subscribers::filter::CompiledFilter;
use crate::request;
use crate::request::Pair;
use crate::text::copy_text;

verus! {

/// The texts among the entries of a table.
pub open spec fn text_entries(entries: Seq<(Seq<char>, Option<Seq<char>>)>) -> Seq<Pair>
    decreases entries.len(),
{
    if entries.len() == 0 {
        Seq::empty()
    } else {
        let front = text_entries(entries.drop_last());
        match entries.last().1 {
            Some(v) => front.push((entries.last().0, v)),
            None => front,
        }
    }
}

/// The labels that an event carries.
pub open spec fn event_labels(members: Seq<(Seq<char>, MemberView)>) -> Map<Seq<char>, Seq<char>> {
    match event::member(members, "labels"@) {
        Some(MemberView::Table(entries)) => labels::inserted(Map::empty(), text_entries(entries)),
        _ => Map::empty(),
    }
}

/// The labels that an event carries.
pub fn labels_of(e: &AuditEvent) -> (r: Labels)
    ensures
        r.wf(),
        r@ == event_labels(e@.members),
{
    match e.get("labels") {
        Some(Member::Table(v)) => {
            let ghost all = event::opt_entries(v@);
            let mut list: Vec<(String, String)> = Vec::new();
            let mut i: usize = 0;
            assert(request::pairs(list@) =~= text_entries(all.take(0)));
            while i < v.len()
                invariant
                    i <= v@.len(),
                    all == event::opt_entries(v@),
                    request::pairs(list@) == text_entries(all.take(i as int)),
                decreases v@.len() - i,
            {
                let ghost before = request::pairs(list@);
                assert(all.take(i + 1).drop_last() =~= all.take(i as int));
                assert(all.take(i + 1).last() == (v@[i as int].0@, audit::opt_view(v@[i as int].1)));
                if let Some(value) = &v[i].1 {
                    let entry = (copy_text(&v[i].0), copy_text(value));
                    let ghost pair: Pair = (entry.0@, entry.1@);
                    list.push(entry);
                    assert(request::pairs(list@) =~= before.push(pair));
                }
                i = i + 1;
            }
            assert(all.take(i as int) =~= all);
            Labels::from_pairs(list)
        },
        _ => Labels::new(),
    }
}

/// Where an event of a line came from.
pub open spec fn source_of(p: ParsedModel, instance_id: Seq<char>) -> SourceModel {
    SourceModel {
        middleware: p.middleware,
        router: p.router,
        entry_point: p.entry_point,
        relay_instance: instance_id,
    }
}

/// The envelope for an event, with the event's own labels.
pub fn envelope_for(p: ParsedAudit, instance_id: &str) -> (r: Envelope)
    ensures
        r.labels.wf(),
        r.labels@ == event_labels(p@.event.members),
        envelope::is_ulid(r@.event_id),
        r@ == envelope::first_envelope(
            p@.event,
            source_of(p@, instance_id@),
            r@.labels,
            r@.event_id,
            r@.delivered_at,
        ),
{
    let found = labels_of(&p.event);
    let source = EnvelopeSource {
        middleware: p.middleware,
        router: p.router,
        entry_point: p.entry_point,
        relay_instance: copy_text(instance_id),
    };
    Envelope::new(p.event, source, found)
}

/// The envelope for a line, unless it holds no audit event.
pub fn envelope_of_line(line: &[u8], instance_id: &str) -> (r: Result<Envelope, ParseError>)
    ensures
        match r {
            Ok(e) => {
                &&& parser::parsed(line@) is Some
                &&& e.labels.wf()
                &&& e.labels@ == event_labels(parser::parsed(line@)->0.event.members)
                &&& envelope::is_ulid(e@.event_id)
                &&& e@ == envelope::first_envelope(
                    parser::parsed(line@)->0.event,
                    source_of(parser::parsed(line@)->0, instance_id@),
                    e@.labels,
                    e@.event_id,
                    e@.delivered_at,
                )
            },
            Err(e) => e is NotPurpleWolf && parser::parsed(line@) is None,
        },
{
    match parse_line(line) {
        Ok(p) => Ok(envelope_for(p, instance_id)),
        Err(e) => Err(e),
    }
}

/// The word under which a line is counted.
pub fn parse_result(r: &Result<Envelope, ParseError>) -> (word: &'static str)
    ensures
        word@ == match *r {
            Ok(_) => "ok"@,
            Err(ParseError::NotPurpleWolf) => "not_pw"@,
            Err(ParseError::Malformed(_)) => "error"@,
        },
{
    match r {
        Ok(_) => "ok",
        Err(ParseError::NotPurpleWolf) => "not_pw",
        Err(ParseError::Malformed(_)) => "error",
    }
}

/// Someone who gets envelopes.
#[derive(Debug)]
pub struct Recipient {
    /// Whether to deliver at all.
    pub enabled: bool,
    /// Which envelopes to deliver.
    pub filter: CompiledFilter,
}

impl Recipient {
    /// The recipient that a configuration describes.
    pub fn of(s: &SubscriberConfig) -> (r: Recipient)
        ensures
            r.enabled == s.enabled,
            request::pairs(r.filter.labels.entries@) == request::pairs(s.filter.labels.entries@),
            r.filter.severity_min == s.filter.severity_min,
            r.filter.pattern() == audit::opt_view(s.filter.blocked_rule_pattern),
    {
        Recipient { enabled: s.enabled, filter: CompiledFilter::compile(&s.filter) }
    }

    /// Whether an envelope is for this recipient.
    pub open spec fn takes(&self, e: EnvelopeModel) -> bool {
        self.enabled && filter::passes(
            request::pairs(self.filter.labels.entries@),
            self.filter.severity_min,
            self.filter.pattern(),
            e,
        )
    }
}

/// The numbers of those who get an envelope, in ascending order.
pub open spec fn taken_by(list: Seq<Recipient>, e: EnvelopeModel) -> Seq<usize>
    decreases list.len(),
{
    if list.len() == 0 {
        Seq::empty()
    } else if list.last().takes(e) {
        taken_by(list.drop_last(), e).push((list.len() - 1) as usize)
    } else {
        taken_by(list.drop_last(), e)
    }
}

/// Who gets an envelope, by number.
pub fn fan_out(list: &Vec<Recipient>, env: &Envelope) -> (r: Vec<usize>)
    ensures
        r@ == taken_by(list@, env@),
{
    let mut out: Vec<usize> = Vec::new();
    let mut i: usize = 0;
    while i < list.len()
        invariant
            i <= list@.len(),
            out@ == taken_by(list@.take(i as int), env@),
        decreases list@.len() - i,
    {
        assert(list@.take(i + 1).drop_last() =~= list@.take(i as int));
        assert(list@.take(i + 1).last() == list@[i as int]);
        if list[i].enabled && list[i].filter.matches(env) {
            out.push(i);
        }
        i = i + 1;
    }
    assert(list@.take(i as int) =~= list@);
    out
}

/// An envelope goes just to those who are enabled and whose filters it passes, to
/// each of them once.
pub proof fn law_envelope_goes_to_those_who_take_it(list: Seq<Recipient>, e: EnvelopeModel, i: int)
    requires
        0 <= i < list.len() <= usize::MAX,
    ensures
        taken_by(list, e).contains(i as usize) <==> list[i].takes(e),
        taken_by(list, e).no_duplicates(),
    decreases list.len(),
{
    lemma_taken_below(list.drop_last(), e);
    let front = taken_by(list.drop_last(), e);
    let last = (list.len() - 1) as usize;
    if list.len() > 1 {
        law_envelope_goes_to_those_who_take_it(
            list.drop_last(),
            e,
            if i < list.len() - 1 {
                i
            } else {
                0
            },
        );
    }
    if list.last().takes(e) {
        let all = front.push(last);
        assert(all[all.len() - 1] == last);
        if i < list.len() - 1 {
            if front.contains(i as usize) {
                let k = choose|k: int| 0 <= k < front.len() && front[k] == i as usize;
                assert(all[k] == i as usize);
            }
            if all.contains(i as usize) {
                let k = choose|k: int| 0 <= k < all.len() && all[k] == i as usize;
                assert(k < front.len());
                assert(front[k] == i as usize);
            }
        }
    }
    if i == list.len() - 1 && !list.last().takes(e) {
        if front.contains(i as usize) {
            let k = choose|k: int| 0 <= k < front.len() && front[k] == i as usize;
            assert(front[k] < last);
        }
    }
}

proof fn lemma_taken_below(list: Seq<Recipient>, e: EnvelopeModel)
    requires
        list.len() <= usize::MAX,
    ensures
        forall|k: int|
            0 <= k < taken_by(list, e).len() ==> #[trigger] taken_by(list, e)[k] < list.len(),
    decreases list.len(),
{
    if list.len() > 0 {
        let front = taken_by(list.drop_last(), e);
        let all = taken_by(list, e);
        lemma_taken_below(list.drop_last(), e);
        assert forall|k: int| 0 <= k < all.len() implies #[trigger] all[k] < list.len() by {
            if k < front.len() {
                assert(all[k] == front[k]);
            }
        }
    }
}

/// The entries with a value are kept, in order, however a list is put together.
pub proof fn law_entries_with_a_value_are_kept(
    a: Seq<(Seq<char>, Option<Seq<char>>)>,
    b: Seq<(Seq<char>, Option<Seq<char>>)>,
    key: Seq<char>,
    value: Seq<char>,
)
    ensures
        text_entries(a + b) == text_entries(a) + text_entries(b),
        text_entries(seq![(key, Some(value))]) == seq![(key, value)],
        text_entries(seq![(key, None)]).len() == 0,
    decreases b.len(),
{
    reveal_with_fuel(text_entries, 2);
    let one: Seq<(Seq<char>, Option<Seq<char>>)> = seq![(key, Some(value))];
    assert(text_entries(one.drop_last()) =~= Seq::<Pair>::empty());
    assert(text_entries(one) =~= seq![(key, value)]);
    if b.len() == 0 {
        assert(a + b =~= a);
        assert(text_entries(a) + text_entries(b) =~= text_entries(a));
    } else {
        law_entries_with_a_value_are_kept(a, b.drop_last(), key, value);
        assert((a + b).drop_last() =~= a + b.drop_last());
        assert((a + b).last() == b.last());
        assert(text_entries(a + b) =~= text_entries(a) + text_entries(b));
    }
}

/// The recipients are tried in the order of the list.
pub proof fn law_recipients_keep_their_order(list: Seq<Recipient>, e: EnvelopeModel, i: int, j: int)
    requires
        list.len() <= usize::MAX,
        0 <= i < j < taken_by(list, e).len(),
    ensures
        taken_by(list, e)[i] < taken_by(list, e)[j] < list.len(),
    decreases list.len(),
{
    lemma_taken_below(list.drop_last(), e);
    if list.len() > 0 {
        let front = taken_by(list.drop_last(), e);
        if j < front.len() {
            law_recipients_keep_their_order(list.drop_last(), e, i, j);
        } else {
            assert(front.contains(front[i]));
        }
    }
}

/// The source of an envelope is what the line said of it, and the relay that read it.
pub proof fn law_source_is_what_the_line_said(p: ParsedModel, instance_id: Seq<char>)
    ensures
        source_of(p, instance_id).middleware == p.middleware,
        source_of(p, instance_id).router == p.router,
        source_of(p, instance_id).entry_point == p.entry_point,
        source_of(p, instance_id).relay_instance == instance_id,
{
}

/// The labels of an event are those of its table with a text as value: of two under one
/// name the later one, wherever it stands. Without a table there are none.
pub proof fn law_event_brings_its_labels(
    members: Seq<(Seq<char>, MemberView)>,
    entries: Seq<(Seq<char>, Option<Seq<char>>)>,
    i: int,
    value: Seq<char>,
)
    ensures
        event::member(members, "labels"@) == Some(MemberView::Table(entries)) && 0 <= i
            < entries.len() && entries[i].1 == Some(value) && (forall|j: int|
            i < j < entries.len() ==> (#[trigger] entries[j]).0 != entries[i].0)
            ==> event_labels(members).contains_key(entries[i].0) && event_labels(
            members,
        )[entries[i].0] == value,
        !(event::member(members, "labels"@) matches Some(MemberView::Table(_))) ==> event_labels(
            members,
        ) == Map::<Seq<char>, Seq<char>>::empty(),
{
    if 0 <= i < entries.len() && entries[i].1 == Some(value) && (forall|j: int|
        i < j < entries.len() ==> (#[trigger] entries[j]).0 != entries[i].0) {
        let key = entries[i].0;
        let front = entries.take(i);
        let back = entries.skip(i + 1);
        let one: Seq<(Seq<char>, Option<Seq<char>>)> = seq![entries[i]];
        assert(entries =~= front + (one + back));
        law_entries_with_a_value_are_kept(front, one + back, key, value);
        law_entries_with_a_value_are_kept(one, back, key, value);
        assert(one =~= seq![(key, Some(value))]);
        assert forall|j: int| 0 <= j < back.len() implies (#[trigger] back[j]).0 != key by {
            assert(back[j] == entries[i + 1 + j]);
        }
        lemma_names_of_entries(back, key);
        let all = text_entries(entries);
        let at = text_entries(front).len() as int;
        assert(all[at] == (key, value));
        assert forall|j: int| at < j < all.len() implies (#[trigger] all[j]).0 != all[at].0 by {
            assert(all[j] == text_entries(back)[j - at - 1]);
        }
        labels::law_last_value_stays(Map::empty(), all, at);
    }
}

proof fn lemma_names_of_entries(
    entries: Seq<(Seq<char>, Option<Seq<char>>)>,
    key: Seq<char>,
)
    requires
        forall|j: int| 0 <= j < entries.len() ==> (#[trigger] entries[j]).0 != key,
    ensures
        forall|j: int|
            0 <= j < text_entries(entries).len() ==> (#[trigger] text_entries(entries)[j]).0 != key,
    decreases entries.len(),
{
    if entries.len() > 0 {
        let front = entries.drop_last();
        assert forall|j: int| 0 <= j < front.len() implies (#[trigger] front[j]).0 != key by {
            assert(front[j] == entries[j]);
        }
        lemma_names_of_entries(front, key);
        assert(entries[entries.len() - 1].0 != key);
        let all = text_entries(entries);
        assert forall|j: int| 0 <= j < all.len() implies (#[trigger] all[j]).0 != key by {
            if j < text_entries(front).len() {
                assert(all[j] == text_entries(front)[j]);
            }
        }
    }
}

} // verus!
