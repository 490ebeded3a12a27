//! Labels out of a table.
use vstd::prelude::*;

use crate::labels::Labels;
use crate::relay::enrichers;
use crate::relay::enrichers::{merge_in_place, Enricher, LabelMap, Reply, Step};
use crate::text::{copy_text, same_text};

verus! {

/// The labels in the table's first row for a value.
pub open spec fn row(table: Seq<(String, Labels)>, value: Seq<char>) -> Option<LabelMap>
    decreases table.len(),
{
    if table.len() == 0 {
        None
    } else if table[0].0@ == value {
        Some(table[0].1@)
    } else {
        row(table.skip(1), value)
    }
}

/// Labels with those added that the table has for the value of one of them.
pub open spec fn looked_up(
    table: Seq<(String, Labels)>,
    on_label: Seq<char>,
    present: LabelMap,
) -> LabelMap {
    if !present.contains_key(on_label) {
        present
    } else {
        match row(table, present[on_label]) {
            Some(extra) => enrichers::merged(present, extra),
            None => present,
        }
    }
}

/// Adds labels out of a table, by the value of one label.
pub struct LookupEnricher {
    /// The label.
    pub on_label: String,
    /// The labels to add, for each value.
    pub table: Vec<(String, Labels)>,
}

impl LookupEnricher {
    /// An enricher for a label and a table.
    pub fn new(on_label: String, table: Vec<(String, Labels)>) -> (r: LookupEnricher)
        ensures
            r.on_label == on_label,
            r.table == table,
    {
        LookupEnricher { on_label, table }
    }

    /// Adds the labels that the table has for the value of the label.
    pub fn enrich(&self, labels: &mut Labels)
        requires
            old(labels).wf(),
        ensures
            final(labels).wf(),
            final(labels)@ == looked_up(self.table@, self.on_label@, old(labels)@),
    {
        let value = match labels.get(&self.on_label) {
            Some(v) => copy_text(v),
            None => {
                return;
            },
        };
        let ghost all = self.table@;
        let ghost start = *labels;
        let mut i: usize = 0;
        assert(all.skip(0) =~= all);
        while i < self.table.len()
            invariant
                i <= self.table@.len(),
                all == self.table@,
                row(all, value@) == row(all.skip(i as int), value@),
                *labels == start,
                start.wf(),
                start@ == old(labels)@,
                start@.contains_key(self.on_label@),
                value@ == start@[self.on_label@],
            decreases self.table@.len() - i,
        {
            assert(all.skip(i as int)[0] == self.table@[i as int]);
            if same_text(&self.table[i].0, &value) {
                merge_in_place(labels, &self.table[i].1);
                return;
            }
            assert(all.skip(i as int).skip(1) =~= all.skip(i + 1));
            i = i + 1;
        }
    }
}

impl Enricher for LookupEnricher {
    open spec fn wf(&self) -> bool {
        true
    }

    open spec fn title(&self) -> Seq<char> {
        "lookup"@
    }

    fn name(&self) -> (r: &'static str) {
        "lookup"
    }

    fn begin(&mut self, labels: &mut Labels, now: u64) -> (r: Step)
        ensures
            r is Done,
            final(labels)@ == looked_up(old(self).table@, old(self).on_label@, old(labels)@),
            *final(self) == *old(self),
    {
        self.enrich(labels);
        Step::Done
    }

    fn finish(&mut self, labels: &mut Labels, value: String, reply: Reply, now: u64)
        ensures
            *final(labels) == *old(labels),
            *final(self) == *old(self),
    {
    }
}

/// Without the label, or without a row for its value, nothing is added.
pub proof fn law_no_row_adds_nothing(
    table: Seq<(String, Labels)>,
    on_label: Seq<char>,
    present: LabelMap,
)
    requires
        present.contains_key(on_label) ==> row(table, present[on_label]) is None,
    ensures
        looked_up(table, on_label, present) == present,
{
}

/// Whatever the table holds, the labels that were there stay.
pub proof fn law_lookup_keeps_labels(
    table: Seq<(String, Labels)>,
    on_label: Seq<char>,
    present: LabelMap,
)
    ensures
        enrichers::keeps_labels(present, looked_up(table, on_label, present)),
{
}

/// Wherever in the table the first row for the value of the label stands, its labels
/// are the ones that are added: a name that was free gets their value, a name that
/// was taken keeps its own, and no other name is touched.
pub proof fn law_row_is_found_anywhere(
    table: Seq<(String, Labels)>,
    on_label: Seq<char>,
    present: LabelMap,
    i: int,
)
    requires
        present.contains_key(on_label),
        0 <= i < table.len(),
        table[i].0@ == present[on_label],
        forall|j: int| 0 <= j < i ==> (#[trigger] table[j]).0@ != present[on_label],
    ensures
        row(table, present[on_label]) == Some(table[i].1@),
        forall|k: Seq<char>| #[trigger]
            looked_up(table, on_label, present).contains_key(k) <==> present.contains_key(k)
                || table[i].1@.contains_key(k),
        forall|k: Seq<char>| #[trigger]
            looked_up(table, on_label, present).contains_key(k) ==> looked_up(
                table,
                on_label,
                present,
            )[k] == if present.contains_key(k) {
                present[k]
            } else {
                table[i].1@[k]
            },
{
    lemma_row_at(table, present[on_label], i);
}

proof fn lemma_row_at(table: Seq<(String, Labels)>, value: Seq<char>, i: int)
    requires
        0 <= i < table.len(),
        table[i].0@ == value,
        forall|j: int| 0 <= j < i ==> (#[trigger] table[j]).0@ != value,
    ensures
        row(table, value) == Some(table[i].1@),
    decreases i,
{
    if i > 0 {
        assert(table[0].0@ != value);
        let rest = table.skip(1);
        assert(rest[i - 1] == table[i]);
        assert forall|j: int| 0 <= j < i - 1 implies (#[trigger] rest[j]).0@ != value by {
            assert(rest[j] == table[j + 1]);
        }
        lemma_row_at(rest, value, i - 1);
    }
}

/// Where no row of the table is for the value of the label, nothing is added.
pub proof fn law_unlisted_value_adds_nothing(
    table: Seq<(String, Labels)>,
    on_label: Seq<char>,
    present: LabelMap,
)
    requires
        present.contains_key(on_label) ==> forall|j: int|
            0 <= j < table.len() ==> (#[trigger] table[j]).0@ != present[on_label],
    ensures
        looked_up(table, on_label, present) == present,
{
    if present.contains_key(on_label) {
        lemma_no_row(table, present[on_label]);
    }
}

proof fn lemma_no_row(table: Seq<(String, Labels)>, value: Seq<char>)
    requires
        forall|j: int| 0 <= j < table.len() ==> (#[trigger] table[j]).0@ != value,
    ensures
        row(table, value) is None,
    decreases table.len(),
{
    if table.len() > 0 {
        assert(table[0].0@ != value);
        let rest = table.skip(1);
        assert forall|j: int| 0 <= j < rest.len() implies (#[trigger] rest[j]).0@ != value by {
            assert(rest[j] == table[j + 1]);
        }
        lemma_no_row(rest, value);
    }
}

} // verus!
