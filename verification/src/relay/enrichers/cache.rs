//! Answers that are kept for a while: at most so many, the least recently used one
//! leaving first.
use vstd::prelude::*;

use crate::labels::Labels;
use crate::request;
use crate::request::Pair;
use crate::text::same_text;

verus! {

/// An answer that is kept.
#[derive(Debug)]
pub struct CacheEntry {
    /// What was asked for.
    pub value: String,
    /// The answer.
    pub labels: Labels,
    /// From when on it no longer counts.
    pub expires_at: u64,
}

/// What an entry holds.
#[verifier::ext_equal]
pub struct Row {
    pub value: Seq<char>,
    pub labels: Seq<Pair>,
    pub expires_at: u64,
}

impl View for CacheEntry {
    type V = Row;

    open spec fn view(&self) -> Row {
        Row {
            value: self.value@,
            labels: request::pairs(self.labels.entries@),
            expires_at: self.expires_at,
        }
    }
}

/// Entries, by what they hold.
pub open spec fn rows(entries: Seq<CacheEntry>) -> Seq<Row> {
    entries.map_values(|e: CacheEntry| e@)
}

/// Where a value stands.
pub open spec fn place(rows: Seq<Row>, value: Seq<char>) -> Option<int>
    decreases rows.len(),
{
    if rows.len() == 0 {
        None
    } else if rows.last().value == value {
        Some(rows.len() - 1)
    } else {
        place(rows.drop_last(), value)
    }
}

/// No value occurs twice.
pub open spec fn distinct(rows: Seq<Row>) -> bool {
    forall|i: int, j: int|
        0 <= i < j < rows.len() ==> (#[trigger] rows[i]).value != (#[trigger] rows[j]).value
}

/// The rows that still count.
pub open spec fn unexpired(rows: Seq<Row>, now: u64) -> Seq<Row>
    decreases rows.len(),
{
    if rows.len() == 0 {
        Seq::empty()
    } else if now >= rows.last().expires_at {
        unexpired(rows.drop_last(), now)
    } else {
        unexpired(rows.drop_last(), now).push(rows.last())
    }
}

/// The rows behind a read, and what was read. A row that is read becomes the most
/// recently used, one that is too old leaves.
pub open spec fn read(rows: Seq<Row>, value: Seq<char>, now: u64) -> (Seq<Row>, Option<Seq<Pair>>) {
    match place(rows, value) {
        None => (rows, None),
        Some(i) => if now >= rows[i].expires_at {
            (rows.remove(i), None)
        } else {
            (rows.remove(i).push(rows[i]), Some(rows[i].labels))
        },
    }
}

/// The newest rows, so many that one more fits.
pub open spec fn with_room(rows: Seq<Row>, capacity: nat) -> Seq<Row> {
    if rows.len() < capacity {
        rows
    } else {
        rows.skip(rows.len() - capacity + 1)
    }
}

/// The rows behind a write.
pub open spec fn written(rows: Seq<Row>, capacity: nat, row: Row, now: u64) -> Seq<Row> {
    if capacity == 0 {
        rows
    } else {
        let live = unexpired(rows, now);
        match place(live, row.value) {
            Some(i) => live.remove(i).push(row),
            None => with_room(live, capacity).push(row),
        }
    }
}

pub proof fn lemma_place(rows: Seq<Row>, value: Seq<char>)
    ensures
        match place(rows, value) {
            Some(i) => 0 <= i < rows.len() && rows[i].value == value,
            None => forall|i: int| 0 <= i < rows.len() ==> (#[trigger] rows[i]).value != value,
        },
    decreases rows.len(),
{
    if rows.len() > 0 && rows.last().value != value {
        let front = rows.drop_last();
        lemma_place(front, value);
        if place(front, value) is None {
            assert forall|i: int| 0 <= i < rows.len() implies (#[trigger] rows[i]).value != value by {
                if i < rows.len() - 1 {
                    assert(front[i] == rows[i]);
                }
            }
        }
    }
}

proof fn lemma_only_place(rows: Seq<Row>, value: Seq<char>, i: int)
    requires
        distinct(rows),
        0 <= i < rows.len(),
        rows[i].value == value,
    ensures
        place(rows, value) == Some(i),
{
    lemma_place(rows, value);
    if place(rows, value) is Some {
        let j = place(rows, value)->0;
        if i < j {
            assert(rows[i].value != rows[j].value);
        } else if j < i {
            assert(rows[j].value != rows[i].value);
        }
    }
}

proof fn lemma_unexpired(rows: Seq<Row>, now: u64)
    requires
        distinct(rows),
    ensures
        distinct(unexpired(rows, now)),
        unexpired(rows, now).len() <= rows.len(),
        forall|v: Seq<char>| #[trigger]
            place(rows, v) is None ==> place(unexpired(rows, now), v) is None,
        forall|i: int|
            0 <= i < unexpired(rows, now).len() ==> now < (#[trigger] unexpired(
                rows,
                now,
            )[i]).expires_at,
    decreases rows.len(),
{
    if rows.len() > 0 {
        let front = rows.drop_last();
        let kept = unexpired(front, now);
        assert forall|i: int, j: int| 0 <= i < j < front.len() implies (
        #[trigger] front[i]).value != (#[trigger] front[j]).value by {
            assert(rows[i].value != rows[j].value);
        }
        lemma_unexpired(front, now);
        let all = unexpired(rows, now);
        assert forall|v: Seq<char>| #[trigger] place(rows, v) is None implies place(all, v) is None by {
            assert(place(front, v) is None);
            if now < rows.last().expires_at {
                assert(all.drop_last() =~= kept);
            }
        }
        if now < rows.last().expires_at {
            let v = rows.last().value;
            lemma_place(front, v);
            if place(front, v) is Some {
                let i = place(front, v)->0;
                assert(rows[i].value != rows[rows.len() - 1].value);
            }
            assert(place(kept, v) is None);
            lemma_place(kept, v);
            assert forall|i: int, j: int| 0 <= i < j < all.len() implies (
            #[trigger] all[i]).value != (#[trigger] all[j]).value by {
                assert(all[i] == kept[i]);
                if j < kept.len() {
                    assert(all[j] == kept[j]);
                }
            }
        }
    }
}

proof fn lemma_moved_to_end(rows: Seq<Row>, i: int, row: Row)
    requires
        distinct(rows),
        0 <= i < rows.len(),
        row.value == rows[i].value,
    ensures
        distinct(rows.remove(i)),
        distinct(rows.remove(i).push(row)),
{
    let rest = rows.remove(i);
    assert forall|a: int, b: int| 0 <= a < b < rest.len() implies (#[trigger] rest[a]).value != (
    #[trigger] rest[b]).value by {
        let x = if a < i {
            a
        } else {
            a + 1
        };
        let y = if b < i {
            b
        } else {
            b + 1
        };
        assert(rows[x].value != rows[y].value);
    }
    let all = rest.push(row);
    assert forall|a: int, b: int| 0 <= a < b < all.len() implies (#[trigger] all[a]).value != (
    #[trigger] all[b]).value by {
        if b < rest.len() {
            assert(rest[a].value != rest[b].value);
        } else {
            let x = if a < i {
                a
            } else {
                a + 1
            };
            assert(all[a] == rows[x]);
            if x < i {
                assert(rows[x].value != rows[i].value);
            } else {
                assert(rows[i].value != rows[x].value);
            }
        }
    }
}

/// Writing keeps the values distinct and the capacity.
pub proof fn lemma_written(rows: Seq<Row>, capacity: nat, row: Row, now: u64)
    requires
        distinct(rows),
        rows.len() <= capacity,
    ensures
        distinct(written(rows, capacity, row, now)),
        written(rows, capacity, row, now).len() <= capacity,
{
    if capacity > 0 {
        let live = unexpired(rows, now);
        lemma_unexpired(rows, now);
        lemma_place(live, row.value);
        match place(live, row.value) {
            Some(i) => {
                lemma_moved_to_end(live, i, row);
            },
            None => {
                let kept = with_room(live, capacity);
                let all = kept.push(row);
                let shift = live.len() - kept.len();
                assert forall|a: int, b: int| 0 <= a < b < all.len() implies (
                #[trigger] all[a]).value != (#[trigger] all[b]).value by {
                    assert(all[a] == live[a + shift]);
                    if b < kept.len() {
                        assert(all[b] == live[b + shift]);
                    }
                }
            },
        }
    }
}

/// Answers, the least recently used first.
#[derive(Debug)]
pub struct Cache {
    /// The answers.
    pub entries: Vec<CacheEntry>,
    /// How many there is room for.
    pub capacity: usize,
}

impl View for Cache {
    type V = Seq<Row>;

    open spec fn view(&self) -> Seq<Row> {
        rows(self.entries@)
    }
}

impl Cache {
    /// No value occurs twice, and there are no more entries than room.
    pub open spec fn wf(&self) -> bool {
        &&& distinct(self@)
        &&& self@.len() <= self.capacity
    }

    /// An empty cache.
    pub fn new(capacity: usize) -> (r: Cache)
        ensures
            r.wf(),
            r@ == Seq::<Row>::empty(),
            r.capacity == capacity,
    {
        let r = Cache { entries: Vec::new(), capacity };
        assert(r@ =~= Seq::<Row>::empty());
        r
    }

    /// The number of answers.
    pub fn len(&self) -> (r: usize)
        ensures
            r == self@.len(),
    {
        self.entries.len()
    }

    /// Whether there are none.
    pub fn is_empty(&self) -> (r: bool)
        ensures
            r == (self@.len() == 0),
    {
        self.entries.len() == 0
    }

    fn find(&self, value: &str) -> (r: Option<usize>)
        ensures
            match r {
                Some(i) => place(self@, value@) == Some(i as int),
                None => place(self@, value@) is None,
            },
    {
        let mut i: usize = self.entries.len();
        assert(self@.take(i as int) =~= self@);
        while i > 0
            invariant
                i <= self.entries@.len(),
                place(self@, value@) == place(self@.take(i as int), value@),
            decreases i,
        {
            assert(self@.take(i as int).last() == self.entries@[i - 1]@);
            if same_text(&self.entries[i - 1].value, value) {
                return Some(i - 1);
            }
            assert(self@.take(i as int).drop_last() =~= self@.take(i - 1));
            i = i - 1;
        }
        None
    }

    /// The answer for a value, unless it is too old. Reading makes it the most
    /// recently used.
    pub fn get(&mut self, value: &str, now: u64) -> (r: Option<Labels>)
        requires
            old(self).wf(),
        ensures
            final(self).wf(),
            final(self).capacity == old(self).capacity,
            final(self)@ == read(old(self)@, value@, now).0,
            match r {
                Some(found) => read(old(self)@, value@, now).1 == Some(
                    request::pairs(found.entries@),
                ),
                None => read(old(self)@, value@, now).1 is None,
            },
    {
        let ghost before = self@;
        match self.find(value) {
            None => None,
            Some(i) => {
                let ghost row = before[i as int];
                proof {
                    lemma_place(before, value@);
                    lemma_moved_to_end(before, i as int, row);
                }
                let entry = self.entries.remove(i);
                assert(self@ =~= before.remove(i as int));
                assert(entry@ == row);
                if now >= entry.expires_at {
                    None
                } else {
                    let found = entry.labels.copy();
                    self.entries.push(entry);
                    assert(self@ =~= before.remove(i as int).push(row));
                    Some(found)
                }
            },
        }
    }

    fn evict_expired(&mut self, now: u64)
        ensures
            final(self)@ == unexpired(old(self)@, now),
            final(self).capacity == old(self).capacity,
    {
        let ghost before = self@;
        let mut i: usize = 0;
        assert(unexpired(before.take(0), now) + before.skip(0) =~= before);
        let ghost mut done: int = 0;
        while i < self.entries.len()
            invariant
                i <= self.entries@.len(),
                0 <= done <= before.len(),
                self@ == unexpired(before.take(done), now) + before.skip(done),
                i == unexpired(before.take(done), now).len(),
                self.capacity == old(self).capacity,
            decreases before.len() - done,
        {
            let ghost here = self@;
            let ghost kept = unexpired(before.take(done), now);
            assert(done < before.len());
            let ghost row = before[done];
            assert(here[i as int] == row);
            assert(self.entries@[i as int]@ == row);
            assert(before.take(done + 1).drop_last() =~= before.take(done));
            assert(before.take(done + 1).last() == row);
            if now >= self.entries[i].expires_at {
                let gone = self.entries.remove(i);
                assert(self@ =~= here.remove(i as int));
                assert(here.remove(i as int) =~= kept + before.skip(done + 1));
            } else {
                i = i + 1;
                assert(here =~= kept.push(row) + before.skip(done + 1));
            }
            proof {
                done = done + 1;
            }
        }
        assert(done == before.len());
        assert(before.take(done) =~= before);
        assert(self@ =~= unexpired(before, now));
    }

    /// Keeps an answer until a given time.
    pub fn put(&mut self, value: String, labels: Labels, expires_at: u64, now: u64)
        requires
            old(self).wf(),
        ensures
            final(self).wf(),
            final(self).capacity == old(self).capacity,
            final(self)@ == written(
                old(self)@,
                old(self).capacity as nat,
                (Row { value: value@, labels: request::pairs(labels.entries@), expires_at }),
                now,
            ),
    {
        if self.capacity == 0 {
            return;
        }
        let entry = CacheEntry { value, labels, expires_at };
        let ghost row = entry@;
        proof {
            lemma_written(self@, self.capacity as nat, row, now);
        }
        self.evict_expired(now);
        let ghost live = self@;
        match self.find(&entry.value) {
            Some(i) => {
                assert(0 <= i < live.len()) by {
                    lemma_place(live, row.value);
                }
                let gone = self.entries.remove(i);
                assert(self@ =~= live.remove(i as int));
                self.entries.push(entry);
                assert(self@ =~= live.remove(i as int).push(row));
            },
            None => {
                assert(live.skip(0) =~= live);
                while self.entries.len() >= self.capacity
                    invariant
                        self.capacity > 0,
                        self.capacity == old(self).capacity,
                        self@.len() <= live.len(),
                        self@ == live.skip(live.len() - self@.len()),
                        self@.len() + 1 >= self.capacity || self@ == live,
                    decreases self.entries@.len(),
                {
                    let ghost here = self@;
                    let oldest = self.entries.remove(0);
                    assert(self@ =~= here.skip(1));
                    assert(self@ =~= live.skip(live.len() - self@.len()));
                }
                assert(self@ =~= with_room(live, self.capacity as nat));
                let ghost kept = self@;
                self.entries.push(entry);
                assert(self@ =~= kept.push(row));
            },
        }
    }
}

// ---------------------------------------------------------------------------
// Laws
// ---------------------------------------------------------------------------
/// What was written is read back until it is too old.
pub proof fn law_written_answer_is_read_back(
    rows: Seq<Row>,
    capacity: nat,
    row: Row,
    now: u64,
    later: u64,
)
    requires
        distinct(rows),
        rows.len() <= capacity,
        capacity > 0,
    ensures
        read(written(rows, capacity, row, now), row.value, later).1 == if later < row.expires_at {
            Some(row.labels)
        } else {
            None
        },
{
    let all = written(rows, capacity, row, now);
    lemma_written(rows, capacity, row, now);
    assert(all.last() == row);
    lemma_only_place(all, row.value, all.len() - 1);
}

/// There are never more answers than there is room for.
pub proof fn law_answers_are_bounded(rows: Seq<Row>, capacity: nat, row: Row, now: u64)
    requires
        distinct(rows),
        rows.len() <= capacity,
    ensures
        written(rows, capacity, row, now).len() <= capacity,
        read(rows, row.value, now).0.len() <= capacity,
{
    lemma_written(rows, capacity, row, now);
    lemma_place(rows, row.value);
}

/// When a full cache of answers that all still count gets a new value, it loses
/// the least recently used answer and no other.
pub proof fn law_least_recently_used_leaves(rows: Seq<Row>, capacity: nat, row: Row, now: u64)
    requires
        distinct(rows),
        rows.len() == capacity,
        capacity > 0,
        place(rows, row.value) is None,
        forall|i: int| 0 <= i < rows.len() ==> now < (#[trigger] rows[i]).expires_at,
    ensures
        written(rows, capacity, row, now) == rows.skip(1).push(row),
{
    lemma_all_unexpired(rows, now);
}

proof fn lemma_all_unexpired(rows: Seq<Row>, now: u64)
    requires
        forall|i: int| 0 <= i < rows.len() ==> now < (#[trigger] rows[i]).expires_at,
    ensures
        unexpired(rows, now) == rows,
    decreases rows.len(),
{
    if rows.len() > 0 {
        let front = rows.drop_last();
        assert forall|i: int| 0 <= i < front.len() implies now < (
        #[trigger] front[i]).expires_at by {
            assert(front[i] == rows[i]);
        }
        lemma_all_unexpired(front, now);
        assert(rows[rows.len() - 1] == rows.last());
        assert(front.push(rows.last()) =~= rows);
    } else {
        assert(rows =~= Seq::<Row>::empty());
    }
}

/// Reading an answer makes it the most recently used, and changes nothing else.
pub proof fn law_reading_refreshes(rows: Seq<Row>, value: Seq<char>, now: u64)
    requires
        distinct(rows),
        read(rows, value, now).1 is Some,
    ensures
        read(rows, value, now).0.last().value == value,
        read(rows, value, now).0.len() == rows.len(),
        forall|i: int|
            0 <= i < rows.len() ==> read(rows, value, now).0.contains(#[trigger] rows[i]),
{
    lemma_place(rows, value);
    let i = place(rows, value)->0;
    let after = read(rows, value, now).0;
    assert forall|k: int| 0 <= k < rows.len() implies after.contains(#[trigger] rows[k]) by {
        let at = if k < i {
            k
        } else if k == i {
            rows.len() - 1
        } else {
            k - 1
        };
        assert(after[at] == rows[k]);
    }
}

/// An answer is found wherever it stands, as long as its time has not come.
pub proof fn law_answer_is_found_anywhere(rows: Seq<Row>, i: int, now: u64)
    requires
        distinct(rows),
        0 <= i < rows.len(),
    ensures
        now < rows[i].expires_at ==> read(rows, rows[i].value, now).1 == Some(rows[i].labels),
        now >= rows[i].expires_at ==> read(rows, rows[i].value, now).1 is None,
{
    lemma_only_place(rows, rows[i].value, i);
}

/// A value without an answer gets none, and nothing moves.
pub proof fn law_unknown_value_has_no_answer(rows: Seq<Row>, value: Seq<char>, now: u64)
    requires
        forall|i: int| 0 <= i < rows.len() ==> (#[trigger] rows[i]).value != value,
    ensures
        read(rows, value, now).1 is None,
        read(rows, value, now).0 == rows,
{
    lemma_place(rows, value);
}

/// Just the answers whose time has come are dropped, and the others keep their order.
pub proof fn law_expired_answers_leave(a: Seq<Row>, b: Seq<Row>, row: Row, now: u64)
    ensures
        unexpired(a + b, now) == unexpired(a, now) + unexpired(b, now),
        now < row.expires_at ==> unexpired(seq![row], now) == seq![row],
        now >= row.expires_at ==> unexpired(seq![row], now).len() == 0,
    decreases b.len(),
{
    reveal_with_fuel(unexpired, 2);
    let one = seq![row];
    assert(unexpired(one.drop_last(), now) =~= Seq::<Row>::empty());
    if now < row.expires_at {
        assert(unexpired(one, now) =~= one);
    }
    if b.len() == 0 {
        assert(a + b =~= a);
        assert(unexpired(a, now) + unexpired(b, now) =~= unexpired(a, now));
    } else {
        law_expired_answers_leave(a, b.drop_last(), row, now);
        assert((a + b).drop_last() =~= a + b.drop_last());
        assert((a + b).last() == b.last());
        assert(unexpired(a + b, now) =~= unexpired(a, now) + unexpired(b, now));
    }
}

/// Where there is room, a new answer displaces no other one.
pub proof fn law_other_answers_are_kept(
    rows: Seq<Row>,
    capacity: nat,
    row: Row,
    now: u64,
    i: int,
)
    requires
        distinct(rows),
        rows.len() < capacity,
        0 <= i < rows.len(),
        rows[i].value != row.value,
        now < rows[i].expires_at,
    ensures
        read(written(rows, capacity, row, now), rows[i].value, now).1 == Some(rows[i].labels),
{
    let all = written(rows, capacity, row, now);
    let live = unexpired(rows, now);
    lemma_written(rows, capacity, row, now);
    lemma_unexpired(rows, now);
    lemma_unexpired_contains(rows, now, i);
    let k = live.index_of(rows[i]);
    lemma_place(live, row.value);
    let z = match place(live, row.value) {
        Some(p) => if k < p {
            k
        } else {
            k - 1
        },
        None => k,
    };
    assert(all[z] == rows[i]);
    lemma_only_place(all, rows[i].value, z);
}

proof fn lemma_unexpired_contains(rows: Seq<Row>, now: u64, i: int)
    requires
        0 <= i < rows.len(),
        now < rows[i].expires_at,
    ensures
        unexpired(rows, now).contains(rows[i]),
    decreases rows.len(),
{
    let front = unexpired(rows.drop_last(), now);
    vstd::seq_lib::lemma_seq_contains_after_push(front, rows.last(), rows[i]);
    if i < rows.len() - 1 {
        assert(rows.drop_last()[i] == rows[i]);
        lemma_unexpired_contains(rows.drop_last(), now, i);
    }
}

} // verus!
