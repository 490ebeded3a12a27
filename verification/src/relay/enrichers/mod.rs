//! What adds labels to envelopes. A label that is there already always stays as it
//! is.
use vstd::prelude::*;

use crate::labels;
use crate::labels::Labels;
use crate::relay::config::EnricherConfig;
use crate::request;
use crate::request::Pair;
use crate::text::copy_text;

use self::http::HttpEnricher;
use self::lookup::LookupEnricher;

pub mod cache;
pub mod http;
pub mod lookup;

verus! {

/// Labels, by name.
pub type LabelMap = Map<Seq<char>, Seq<char>>;

/// Labels with further ones added where a name was free.
pub open spec fn merged(present: LabelMap, extra: LabelMap) -> LabelMap {
    extra.union_prefer_right(present)
}

/// Every label that was there is still there, with its value.
pub open spec fn keeps_labels(before: LabelMap, after: LabelMap) -> bool {
    forall|k: Seq<char>|
        before.contains_key(k) ==> #[trigger] after.contains_key(k) && after[k] == before[k]
}

/// What came of a request.
#[derive(Debug, PartialEq, Eq)]
pub enum Reply {
    /// A response.
    Answer { status: u16, body: Vec<u8> },
    /// No response: the request failed or took too long.
    Failed,
}

/// How an enrichment goes on.
#[derive(Debug, PartialEq, Eq)]
pub enum Step {
    /// It is done.
    Done,
    /// Ask for the labels of a value there.
    Fetch { value: String, url: String },
}

/// Something that adds labels. Times are in nanoseconds since some fixed moment.
pub trait Enricher {
    /// What holds of the enricher.
    spec fn wf(&self) -> bool;

    /// The enricher's name.
    spec fn title(&self) -> Seq<char>;

    /// The enricher's name.
    fn name(&self) -> (r: &'static str)
        ensures
            r@ == self.title(),
    ;

    /// Adds labels as far as they are known; otherwise says what to ask for.
    fn begin(&mut self, labels: &mut Labels, now: u64) -> (r: Step)
        requires
            old(self).wf(),
            old(labels).wf(),
        ensures
            final(self).wf(),
            final(labels).wf(),
            keeps_labels(old(labels)@, final(labels)@),
    ;

    /// Adds the labels of a reply. A failure adds none.
    fn finish(&mut self, labels: &mut Labels, value: String, reply: Reply, now: u64)
        requires
            old(self).wf(),
            old(labels).wf(),
        ensures
            final(self).wf(),
            final(labels).wf(),
            keeps_labels(old(labels)@, final(labels)@),
    ;
}

/// The enricher that a configuration describes.
pub enum BuiltEnricher {
    Lookup(LookupEnricher),
    Http(HttpEnricher),
}

impl Enricher for BuiltEnricher {
    open spec fn wf(&self) -> bool {
        match *self {
            BuiltEnricher::Lookup(e) => e.wf(),
            BuiltEnricher::Http(e) => e.wf(),
        }
    }

    open spec fn title(&self) -> Seq<char> {
        match *self {
            BuiltEnricher::Lookup(e) => e.title(),
            BuiltEnricher::Http(e) => e.title(),
        }
    }

    fn name(&self) -> (r: &'static str) {
        match self {
            BuiltEnricher::Lookup(e) => e.name(),
            BuiltEnricher::Http(e) => e.name(),
        }
    }

    fn begin(&mut self, labels: &mut Labels, now: u64) -> (r: Step)
        ensures
            match *old(self) {
                BuiltEnricher::Lookup(e) => {
                    &&& r is Done
                    &&& *final(self) == *old(self)
                    &&& final(labels)@ == lookup::looked_up(e.table@, e.on_label@, old(labels)@)
                },
                BuiltEnricher::Http(e) => {
                    &&& *final(self) matches BuiltEnricher::Http(f)
                    &&& http::begun(e, old(labels)@, now, f, final(labels)@, r)
                },
            },
    {
        match self {
            BuiltEnricher::Lookup(e) => e.begin(labels, now),
            BuiltEnricher::Http(e) => e.begin(labels, now),
        }
    }

    fn finish(&mut self, labels: &mut Labels, value: String, reply: Reply, now: u64)
        ensures
            match *old(self) {
                BuiltEnricher::Lookup(e) => *final(self) == *old(self) && *final(labels) == *old(
                    labels,
                ),
                BuiltEnricher::Http(e) => {
                    &&& *final(self) matches BuiltEnricher::Http(f)
                    &&& http::accepted(
                        e,
                        old(labels)@,
                        value@,
                        http::reply_labels(reply),
                        now,
                        f,
                        final(labels)@,
                    )
                },
            },
    {
        match self {
            BuiltEnricher::Lookup(e) => e.finish(labels, value, reply, now),
            BuiltEnricher::Http(e) => e.finish(labels, value, reply, now),
        }
    }
}

/// The enricher that a configuration describes.
pub fn build(cfg: EnricherConfig) -> (r: BuiltEnricher)
    ensures
        r.wf(),
        match cfg {
            EnricherConfig::Lookup { on_label, table } => r matches BuiltEnricher::Lookup(e)
                && e.on_label == on_label && e.table == table,
            EnricherConfig::Http { on_label, url, timeout_ms, cache_ttl_s, cache_capacity } => {
                r matches BuiltEnricher::Http(e) && {
                    &&& e.on_label == on_label
                    &&& e.url_template == url
                    &&& e.timeout_ms == timeout_ms
                    &&& e.cache_ttl == http::nanoseconds(cache_ttl_s as int)
                    &&& e.cache.capacity == cache_capacity
                    &&& e.cache@.len() == 0
                }
            },
        },
{
    match cfg {
        EnricherConfig::Lookup { on_label, table } => BuiltEnricher::Lookup(
            LookupEnricher::new(on_label, table),
        ),
        EnricherConfig::Http { on_label, url, timeout_ms, cache_ttl_s, cache_capacity } => {
            BuiltEnricher::Http(
                HttpEnricher::new(
                    on_label,
                    url,
                    timeout_ms,
                    http::seconds(cache_ttl_s),
                    cache_capacity,
                ),
            )
        },
    }
}

proof fn lemma_value_of_push(entries: Seq<Pair>, entry: Pair, key: Seq<char>)
    ensures
        labels::value_of(entries.push(entry), key) == match labels::value_of(entries, key) {
            Some(v) => Some(v),
            None => if entry.0 == key {
                Some(entry.1)
            } else {
                None
            },
        },
    decreases entries.len(),
{
    reveal_with_fuel(labels::value_of, 2);
    let all = entries.push(entry);
    if entries.len() > 0 {
        assert(all[0] == entries[0]);
        assert(all.skip(1) =~= entries.skip(1).push(entry));
        lemma_value_of_push(entries.skip(1), entry, key);
    } else {
        assert(all[0] == entry);
        assert(all.skip(1) =~= Seq::<Pair>::empty());
    }
}

/// Adds labels under the names that are free.
pub fn merge_in_place(labels: &mut Labels, extra: &Labels)
    requires
        old(labels).wf(),
    ensures
        final(labels).wf(),
        final(labels)@ == merged(old(labels)@, extra@),
        keeps_labels(old(labels)@, final(labels)@),
{
    let ghost all = request::pairs(extra.entries@);
    let ghost start = labels@;
    let mut i: usize = 0;
    assert(labels@ =~= merged(start, labels::as_map(all.take(0))));
    while i < extra.entries.len()
        invariant
            i <= extra.entries@.len(),
            all == request::pairs(extra.entries@),
            labels.wf(),
            labels@ == merged(start, labels::as_map(all.take(i as int))),
        decreases extra.entries@.len() - i,
    {
        let ghost before = labels@;
        let ghost part = labels::as_map(all.take(i as int));
        let ghost more = labels::as_map(all.take(i + 1));
        let ghost entry: Pair = (extra.entries@[i as int].0@, extra.entries@[i as int].1@);
        proof {
            assert(all.take(i + 1) =~= all.take(i as int).push(entry));
            assert forall|k: Seq<char>|
                #![trigger more.contains_key(k)]
                #![trigger part.contains_key(k)]
                (k != entry.0 || part.contains_key(k)) ==> more.contains_key(k)
                    == part.contains_key(k) && (more.contains_key(k) ==> more[k] == part[k]) by {
                lemma_value_of_push(all.take(i as int), entry, k);
            }
            lemma_value_of_push(all.take(i as int), entry, entry.0);
        }
        let key = &extra.entries[i].0;
        if labels.get(key).is_none() {
            labels.insert(copy_text(key), copy_text(&extra.entries[i].1));
            assert(!part.contains_key(entry.0));
            assert(more.contains_key(entry.0) && more[entry.0] == entry.1);
        }
        assert(labels@ =~= merged(start, more));
        i = i + 1;
    }
    assert(all.take(i as int) =~= all);
}

/// Adding labels twice adds nothing the second time.
pub proof fn law_merging_again_changes_nothing(present: LabelMap, extra: LabelMap)
    ensures
        merged(merged(present, extra), extra) == merged(present, extra),
{
    assert(merged(merged(present, extra), extra) =~= merged(present, extra));
}

/// A label that was there is never overwritten, and a free name gets the added
/// value.
pub proof fn law_present_labels_win(present: LabelMap, extra: LabelMap, key: Seq<char>)
    ensures
        present.contains_key(key) ==> merged(present, extra).contains_key(key) && merged(
            present,
            extra,
        )[key] == present[key],
        !present.contains_key(key) && extra.contains_key(key) ==> merged(
            present,
            extra,
        ).contains_key(key) && merged(present, extra)[key] == extra[key],
        !present.contains_key(key) && !extra.contains_key(key) ==> !merged(
            present,
            extra,
        ).contains_key(key),
{
}

} // verus!
