//! Labels: names with values, in the order of their names.
use vstd::prelude::*;

use crate::request;
use crate::request::Pair;
use crate::text::{chars_of, copy_text, same_text, scrub};
use crate::text;

verus! {

// ---------------------------------------------------------------------------
// The order of texts
// ---------------------------------------------------------------------------
/// `a` comes before `b` in the dictionary order of code points.
pub open spec fn text_less(a: Seq<char>, b: Seq<char>) -> bool
    decreases a.len(),
{
    if b.len() == 0 {
        false
    } else if a.len() == 0 {
        true
    } else if a[0] != b[0] {
        a[0] < b[0]
    } else {
        text_less(a.skip(1), b.skip(1))
    }
}

pub proof fn lemma_less_total(a: Seq<char>, b: Seq<char>)
    ensures
        text_less(a, b) || text_less(b, a) || a == b,
        !(text_less(a, b) && text_less(b, a)),
        !text_less(a, a),
    decreases a.len(),
{
    if a.len() > 0 {
        if b.len() > 0 && a[0] == b[0] {
            lemma_less_total(a.skip(1), b.skip(1));
            if a.skip(1) == b.skip(1) {
                assert(a =~= seq![a[0]] + a.skip(1));
                assert(b =~= seq![b[0]] + b.skip(1));
            }
        }
        lemma_less_total(a.skip(1), a.skip(1));
    } else if b.len() == 0 {
        assert(a =~= b);
    }
}

pub proof fn lemma_less_transitive(a: Seq<char>, b: Seq<char>, c: Seq<char>)
    requires
        text_less(a, b),
        text_less(b, c),
    ensures
        text_less(a, c),
    decreases a.len(),
{
    if a.len() > 0 && a[0] == b[0] && b[0] == c[0] {
        lemma_less_transitive(a.skip(1), b.skip(1), c.skip(1));
    }
}

fn chars_less(a: &[char], b: &[char]) -> (r: bool)
    ensures
        r == text_less(a@, b@),
{
    let mut i: usize = 0;
    assert(a@.skip(0) == a@ && b@.skip(0) == b@);
    while i < a.len() && i < b.len()
        invariant
            i <= a@.len(),
            i <= b@.len(),
            text_less(a@, b@) == text_less(a@.skip(i as int), b@.skip(i as int)),
        decreases a@.len() - i,
    {
        if a[i] != b[i] {
            return a[i] < b[i];
        }
        assert(a@.skip(i as int).skip(1) == a@.skip(i + 1));
        assert(b@.skip(i as int).skip(1) == b@.skip(i + 1));
        i = i + 1;
    }
    i < b.len()
}

// ---------------------------------------------------------------------------
// Labels
// ---------------------------------------------------------------------------
/// The value under a name.
pub open spec fn value_of(entries: Seq<Pair>, key: Seq<char>) -> Option<Seq<char>>
    decreases entries.len(),
{
    if entries.len() == 0 {
        None
    } else if entries[0].0 == key {
        Some(entries[0].1)
    } else {
        value_of(entries.skip(1), key)
    }
}

/// The names are in strictly ascending order.
pub open spec fn ascending(entries: Seq<Pair>) -> bool {
    forall|i: int, j: int|
        0 <= i < j < entries.len() ==> text_less((#[trigger] entries[i]).0, (
        #[trigger] entries[j]).0)
}

/// A map from names to values.
pub open spec fn as_map(entries: Seq<Pair>) -> Map<Seq<char>, Seq<char>> {
    Map::new(
        |k: Seq<char>| value_of(entries, k) is Some,
        |k: Seq<char>| value_of(entries, k)->0,
    )
}

/// Labels, by ascending name.
#[derive(Debug, PartialEq, Eq)]
pub struct Labels {
    /// The names and values.
    pub entries: Vec<(String, String)>,
}

impl View for Labels {
    type V = Map<Seq<char>, Seq<char>>;

    open spec fn view(&self) -> Map<Seq<char>, Seq<char>> {
        as_map(request::pairs(self.entries@))
    }
}

proof fn lemma_value_of(entries: Seq<Pair>, key: Seq<char>)
    ensures
        match value_of(entries, key) {
            Some(v) => exists|i: int|
                0 <= i < entries.len() && #[trigger] entries[i] == (key, v),
            None => forall|i: int| 0 <= i < entries.len() ==> (#[trigger] entries[i]).0 != key,
        },
    decreases entries.len(),
{
    if entries.len() > 0 {
        if entries[0].0 != key {
            let rest = entries.skip(1);
            lemma_value_of(rest, key);
            match value_of(rest, key) {
                Some(v) => {
                    let i = choose|i: int| 0 <= i < rest.len() && #[trigger] rest[i] == (key, v);
                    assert(entries[i + 1] == (key, v));
                },
                None => {
                    assert forall|i: int| 0 <= i < entries.len() implies (
                    #[trigger] entries[i]).0 != key by {
                        if i > 0 {
                            assert(rest[i - 1] == entries[i]);
                        }
                    }
                },
            }
        } else {
            assert(entries[0] == (key, entries[0].1));
        }
    }
}

/// In ascending entries, the value under a name is that of its only entry.
pub proof fn lemma_value_at(entries: Seq<Pair>, i: int)
    requires
        ascending(entries),
        0 <= i < entries.len(),
    ensures
        value_of(entries, entries[i].0) == Some(entries[i].1),
{
    let key = entries[i].0;
    lemma_value_of(entries, key);
    if value_of(entries, key) is None {
        assert(entries[i].0 != key);
    } else {
        let v = value_of(entries, key)->0;
        let j = choose|j: int| 0 <= j < entries.len() && #[trigger] entries[j] == (key, v);
        lemma_less_total(key, key);
        if j < i {
            assert(text_less(entries[j].0, entries[i].0));
        } else if i < j {
            assert(text_less(entries[i].0, entries[j].0));
        }
    }
}

/// Entries of which none has the name hold nothing under it.
pub proof fn lemma_value_absent(entries: Seq<Pair>, key: Seq<char>)
    requires
        forall|i: int| 0 <= i < entries.len() ==> (#[trigger] entries[i]).0 != key,
    ensures
        value_of(entries, key) is None,
{
    lemma_value_of(entries, key);
    if value_of(entries, key) is Some {
        let v = value_of(entries, key)->0;
        let i = choose|i: int| 0 <= i < entries.len() && #[trigger] entries[i] == (key, v);
        assert(entries[i].0 == key);
    }
}

/// What inserting or replacing one entry does to the map.
proof fn lemma_map_with(old_entries: Seq<Pair>, new_entries: Seq<Pair>, at: int, replace: bool)
    requires
        ascending(old_entries),
        ascending(new_entries),
        0 <= at < new_entries.len(),
        replace ==> at < old_entries.len() && new_entries == old_entries.update(
            at,
            new_entries[at],
        ) && old_entries[at].0 == new_entries[at].0,
        !replace ==> at <= old_entries.len() && new_entries == old_entries.insert(
            at,
            new_entries[at],
        ),
    ensures
        as_map(new_entries) == as_map(old_entries).insert(new_entries[at].0, new_entries[at].1),
{
    let key = new_entries[at].0;
    let value = new_entries[at].1;
    let a = as_map(new_entries);
    let b = as_map(old_entries).insert(key, value);
    assert forall|k: Seq<char>|
        #![trigger a.dom().contains(k)]
        #![trigger b.dom().contains(k)]
        a.dom().contains(k) == b.dom().contains(k) && (a.dom().contains(k) ==> a[k] == b[k]) by {
        if k == key {
            lemma_value_at(new_entries, at);
        } else {
            lemma_value_of(old_entries, k);
            lemma_value_of(new_entries, k);
            if value_of(old_entries, k) is Some {
                let v = value_of(old_entries, k)->0;
                let i = choose|i: int|
                    0 <= i < old_entries.len() && #[trigger] old_entries[i] == (k, v);
                let j = if replace || i < at {
                    i
                } else {
                    i + 1
                };
                assert(new_entries[j] == (k, v));
                lemma_value_at(new_entries, j);
            } else {
                assert forall|j: int| 0 <= j < new_entries.len() implies (
                #[trigger] new_entries[j]).0 != k by {
                    if j != at {
                        let i = if replace || j < at {
                            j
                        } else {
                            j - 1
                        };
                        assert(new_entries[j] == old_entries[i]);
                    }
                }
                lemma_value_absent(new_entries, k);
            }
        }
    }
    assert(a.dom() =~= b.dom());
    assert(a =~= b);
}

impl Labels {
    /// The names are in ascending order, each once.
    pub open spec fn wf(&self) -> bool {
        ascending(request::pairs(self.entries@))
    }

    /// No labels.
    pub fn new() -> (r: Labels)
        ensures
            r.wf(),
            r@ == Map::<Seq<char>, Seq<char>>::empty(),
            r.entries@.len() == 0,
    {
        let r = Labels { entries: Vec::new() };
        assert(r@ =~= Map::<Seq<char>, Seq<char>>::empty());
        r
    }

    /// The number of labels.
    pub fn len(&self) -> (r: usize)
        ensures
            r == self.entries@.len(),
    {
        self.entries.len()
    }

    /// Whether there are no labels.
    pub fn is_empty(&self) -> (r: bool)
        ensures
            r == (self.entries@.len() == 0),
    {
        self.entries.len() == 0
    }

    /// The value under a name.
    pub fn get(&self, key: &str) -> (r: Option<&str>)
        ensures
            request::opt_text(r) == value_of(request::pairs(self.entries@), key@),
            r is Some <==> self@.contains_key(key@),
            r is Some ==> r->0@ == self@[key@],
    {
        let ghost all = request::pairs(self.entries@);
        let mut i: usize = 0;
        assert(all.skip(0) == all);
        while i < self.entries.len()
            invariant
                i <= self.entries@.len(),
                all == request::pairs(self.entries@),
                value_of(all, key@) == value_of(all.skip(i as int), key@),
            decreases self.entries@.len() - i,
        {
            assert(all.skip(i as int)[0] == (
                self.entries@[i as int].0@,
                self.entries@[i as int].1@,
            ));
            if same_text(&self.entries[i].0, key) {
                return Some(self.entries[i].1.as_str());
            }
            assert(all.skip(i as int).skip(1) == all.skip(i + 1));
            i = i + 1;
        }
        None
    }

    /// Puts a value under a name, in place of any other value there.
    pub fn insert(&mut self, key: String, value: String)
        requires
            old(self).wf(),
        ensures
            final(self).wf(),
            final(self)@ == old(self)@.insert(key@, value@),
    {
        let ghost before = request::pairs(self.entries@);
        let ghost entry: Pair = (key@, value@);
        let wanted = chars_of(&key);
        let mut i: usize = 0;
        while i < self.entries.len()
            invariant_except_break
                forall|k: int| 0 <= k < i ==> text_less((#[trigger] before[k]).0, key@),
            invariant
                i <= self.entries@.len(),
                before == request::pairs(self.entries@),
                wanted@ == key@,
            ensures
                forall|k: int| 0 <= k < i ==> text_less((#[trigger] before[k]).0, key@),
                i < before.len() ==> !text_less(before[i as int].0, key@),
            decreases self.entries@.len() - i,
        {
            let here = chars_of(&self.entries[i].0);
            assert(before[i as int].0 == here@);
            if !chars_less(&here, &wanted) {
                break;
            }
            i = i + 1;
        }
        if i < self.entries.len() && same_text(&self.entries[i].0, &key) {
            self.entries.set(i, (key, value));
            proof {
                let after = request::pairs(self.entries@);
                assert(after =~= before.update(i as int, entry));
                assert forall|a: int, b: int| 0 <= a < b < after.len() implies text_less(
                    (#[trigger] after[a]).0,
                    (#[trigger] after[b]).0,
                ) by {
                    assert(text_less(before[a].0, before[b].0));
                }
                lemma_map_with(before, after, i as int, true);
            }
        } else {
            self.entries.insert(i, (key, value));
            proof {
                let after = request::pairs(self.entries@);
                assert(after =~= before.insert(i as int, entry));
                assert forall|a: int, b: int| 0 <= a < b < after.len() implies text_less(
                    (#[trigger] after[a]).0,
                    (#[trigger] after[b]).0,
                ) by {
                    let x = if a < i {
                        a
                    } else {
                        a - 1
                    };
                    let y = if b < i {
                        b
                    } else {
                        b - 1
                    };
                    if a != i && b != i {
                        assert(text_less(before[x].0, before[y].0));
                    } else if a == i {
                        assert(after[b] == before[y]);
                        lemma_less_total(before[i as int].0, entry.0);
                        if y > i {
                            assert(text_less(before[i as int].0, before[y].0));
                            lemma_less_transitive(entry.0, before[i as int].0, before[y].0);
                        }
                    }
                }
                lemma_map_with(before, after, i as int, false);
            }
        }
    }

    /// The labels of a list of names and values; of two values under one name,
    /// the later one stays.
    pub fn from_pairs(list: Vec<(String, String)>) -> (r: Labels)
        ensures
            r.wf(),
            r@ == inserted(Map::empty(), request::pairs(list@)),
    {
        let ghost all = request::pairs(list@);
        let mut out = Labels::new();
        for (k, v) in it: list
            invariant
                it.seq() == list@,
                all == request::pairs(list@),
                out.wf(),
                out@ == inserted(Map::empty(), all.take(it.index() as int)),
        {
            let ghost n = it.index() as int;
            assert(all.take(n + 1).drop_last() == all.take(n));
            assert(all.take(n + 1).last() == (k@, v@));
            out.insert(k, v);
        }
        assert(all.take(all.len() as int) == all);
        out
    }

    /// A copy of the labels.
    pub fn copy(&self) -> (r: Labels)
        ensures
            request::pairs(r.entries@) == request::pairs(self.entries@),
            r@ == self@,
            self.wf() ==> r.wf(),
    {
        let ghost all = request::pairs(self.entries@);
        let mut out: Vec<(String, String)> = Vec::new();
        let mut i: usize = 0;
        assert(request::pairs(out@) =~= all.take(0));
        while i < self.entries.len()
            invariant
                i <= self.entries@.len(),
                all == request::pairs(self.entries@),
                request::pairs(out@) == all.take(i as int),
            decreases self.entries@.len() - i,
        {
            let ghost before = request::pairs(out@);
            let k = copy_text(&self.entries[i].0);
            let v = copy_text(&self.entries[i].1);
            let ghost entry: Pair = (k@, v@);
            out.push((k, v));
            assert(request::pairs(out@) =~= before.push(entry));
            assert(all.take(i + 1) =~= all.take(i as int).push(entry));
            i = i + 1;
        }
        assert(all.take(all.len() as int) == all);
        Labels { entries: out }
    }

    /// The labels with the control characters of their values replaced.
    pub fn scrubbed(&self) -> (r: Labels)
        requires
            self.wf(),
        ensures
            r.wf(),
            request::pairs(r.entries@) == scrubbed_values(request::pairs(self.entries@)),
    {
        let ghost all = request::pairs(self.entries@);
        let mut out: Vec<(String, String)> = Vec::new();
        let mut i: usize = 0;
        assert(request::pairs(out@) =~= scrubbed_values(all.take(0)));
        while i < self.entries.len()
            invariant
                i <= self.entries@.len(),
                all == request::pairs(self.entries@),
                request::pairs(out@) == scrubbed_values(all.take(i as int)),
            decreases self.entries@.len() - i,
        {
            let ghost before = request::pairs(out@);
            let k = copy_text(&self.entries[i].0);
            let v = scrub(&self.entries[i].1);
            let ghost entry: Pair = (k@, v@);
            out.push((k, v));
            assert(request::pairs(out@) =~= before.push(entry));
            assert(scrubbed_values(all.take(i + 1)) =~= scrubbed_values(all.take(i as int)).push(
                entry,
            ));
            i = i + 1;
        }
        assert(all.take(all.len() as int) == all);
        let r = Labels { entries: out };
        proof {
            let after = request::pairs(r.entries@);
            assert forall|a: int, b: int| 0 <= a < b < after.len() implies text_less(
                (#[trigger] after[a]).0,
                (#[trigger] after[b]).0,
            ) by {
                assert(text_less(all[a].0, all[b].0));
            }
        }
        r
    }
}

/// The entries with the control characters of their values replaced by dots.
pub open spec fn scrubbed_values(entries: Seq<Pair>) -> Seq<Pair> {
    entries.map_values(|p: Pair| (p.0, text::scrubbed(p.1)))
}

/// The map after inserting some entries, one by one.
pub open spec fn inserted(m: Map<Seq<char>, Seq<char>>, entries: Seq<Pair>) -> Map<
    Seq<char>,
    Seq<char>,
>
    decreases entries.len(),
{
    if entries.len() == 0 {
        m
    } else {
        inserted(m, entries.drop_last()).insert(entries.last().0, entries.last().1)
    }
}

/// The value under a name is the first one there, wherever it stands.
pub proof fn law_value_is_found_anywhere(entries: Seq<Pair>, key: Seq<char>, i: int)
    requires
        0 <= i < entries.len(),
        entries[i].0 == key,
        forall|j: int| 0 <= j < i ==> (#[trigger] entries[j]).0 != key,
    ensures
        value_of(entries, key) == Some(entries[i].1),
    decreases i,
{
    if i > 0 {
        assert(entries[0].0 != key);
        let rest = entries.skip(1);
        assert forall|j: int| 0 <= j < i - 1 implies (#[trigger] rest[j]).0 != key by {
            assert(rest[j] == entries[j + 1]);
        }
        law_value_is_found_anywhere(rest, key, i - 1);
    }
}

/// A name that no entry has gets no value.
pub proof fn law_absent_name_has_no_value(entries: Seq<Pair>, key: Seq<char>)
    requires
        forall|j: int| 0 <= j < entries.len() ==> (#[trigger] entries[j]).0 != key,
    ensures
        value_of(entries, key) is None,
    decreases entries.len(),
{
    if entries.len() > 0 {
        assert(entries[0].0 != key);
        let rest = entries.skip(1);
        assert forall|j: int| 0 <= j < rest.len() implies (#[trigger] rest[j]).0 != key by {
            assert(rest[j] == entries[j + 1]);
        }
        law_absent_name_has_no_value(rest, key);
    }
}

/// Of the values put under one name the last one stays, wherever it stands in the list.
pub proof fn law_last_value_stays(
    m: Map<Seq<char>, Seq<char>>,
    entries: Seq<Pair>,
    i: int,
)
    requires
        0 <= i < entries.len(),
        forall|j: int| i < j < entries.len() ==> (#[trigger] entries[j]).0 != entries[i].0,
    ensures
        inserted(m, entries).contains_key(entries[i].0),
        inserted(m, entries)[entries[i].0] == entries[i].1,
    decreases entries.len(),
{
    if i < entries.len() - 1 {
        let front = entries.drop_last();
        assert(entries[entries.len() - 1].0 != entries[i].0);
        assert forall|j: int| i < j < front.len() implies (#[trigger] front[j]).0 != front[i].0 by {
            assert(front[j] == entries[j]);
        }
        law_last_value_stays(m, front, i);
    }
}

/// A name that the list does not hold keeps what it had.
pub proof fn law_other_names_are_kept(
    m: Map<Seq<char>, Seq<char>>,
    entries: Seq<Pair>,
    key: Seq<char>,
)
    requires
        forall|j: int| 0 <= j < entries.len() ==> (#[trigger] entries[j]).0 != key,
    ensures
        inserted(m, entries).contains_key(key) == m.contains_key(key),
        inserted(m, entries)[key] == m[key],
    decreases entries.len(),
{
    if entries.len() > 0 {
        let front = entries.drop_last();
        assert(entries[entries.len() - 1].0 != key);
        assert forall|j: int| 0 <= j < front.len() implies (#[trigger] front[j]).0 != key by {
            assert(front[j] == entries[j]);
        }
        law_other_names_are_kept(m, front, key);
    }
}

/// Names are ordered by the first character in which they differ, and a name that another
/// one only continues comes before it.
pub proof fn law_names_are_ordered_by_characters(
    start: Seq<char>,
    a: Seq<char>,
    b: Seq<char>,
)
    requires
        a.len() == 0 || b.len() == 0 || a[0] != b[0],
    ensures
        text_less(start + a, start + b) <==> b.len() > 0 && (a.len() == 0 || a[0] < b[0]),
    decreases start.len(),
{
    if start.len() == 0 {
        assert(start + a =~= a);
        assert(start + b =~= b);
    } else {
        assert((start + a).skip(1) =~= start.skip(1) + a);
        assert((start + b).skip(1) =~= start.skip(1) + b);
        assert((start + a)[0] == start[0] && (start + b)[0] == start[0]);
        law_names_are_ordered_by_characters(start.skip(1), a, b);
    }
}

/// Scrubbing keeps every label, its place and its name, and scrubs its value.
pub proof fn law_scrubbing_keeps_the_names(entries: Seq<Pair>, i: int)
    requires
        0 <= i < entries.len(),
    ensures
        scrubbed_values(entries).len() == entries.len(),
        scrubbed_values(entries)[i].0 == entries[i].0,
        scrubbed_values(entries)[i].1.len() == entries[i].1.len(),
        forall|k: int|
            0 <= k < entries[i].1.len() ==> (#[trigger] scrubbed_values(entries)[i].1[k] == (
            if (entries[i].1[k] as u32) < 0x20 || entries[i].1[k] as u32 == 0x7f {
                '.'
            } else {
                entries[i].1[k]
            })),
{
}

} // verus!
