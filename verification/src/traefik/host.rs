//! What the proxy's host hands to the guest, and what it means.
use vstd::prelude::*;

use crate::bytes;
use crate::bytes::lossy_text;
use crate::request;
use crate::text::push_text;

verus! {

/// The largest value or body prefix that is taken into memory.
pub const MAX_ALLOC: usize = 0xFF_FFFF;

/// The size of the buffer for a first read.
pub const SCRATCH: usize = 2048;

/// The largest number of values taken from one read.
pub const MAX_MULTI_VALUES: usize = 1024;

/// How many reads in a row may bring nothing.
pub const MAX_EMPTY_READS: usize = 3;

// ---------------------------------------------------------------------------
// Packed numbers
// ---------------------------------------------------------------------------
pub open spec fn word_size() -> int {
    0x1_0000_0000
}

/// The higher half of a packed number, as a signed number.
pub open spec fn high_half(n: int) -> int {
    n / word_size()
}

/// The lower half of a packed number, as a signed number.
pub open spec fn low_half(n: int) -> int {
    let u = n % word_size();
    if u >= 0x8000_0000 {
        u - word_size()
    } else {
        u
    }
}

/// A number, or zero if it is negative.
pub open spec fn not_negative(n: int) -> int {
    if n < 0 {
        0
    } else {
        n
    }
}

fn low_part(n: i64) -> (r: usize)
    ensures
        r == not_negative(low_half(n as int)),
{
    let m: i64 = if n >= 0 {
        n
    } else {
        (n + 0x7fff_ffff_ffff_ffff) + 1
    };
    assert(m as int % word_size() == n as int % word_size()) by {
        assert(m == n || m == n + 0x8000_0000 * word_size());
    }
    let low: i64 = m % 0x1_0000_0000;
    if low >= 0x8000_0000 {
        0
    } else {
        low as usize
    }
}

/// Takes a number and a length out of a packed number; what is negative counts as
/// zero.
pub fn split_packed(n: i64) -> (r: (usize, usize))
    ensures
        r.0 == not_negative(high_half(n as int)),
        r.1 == not_negative(low_half(n as int)),
{
    let count: usize = if n < 0 {
        0
    } else {
        (n / 0x1_0000_0000) as usize
    };
    (count, low_part(n))
}

/// Takes an end mark and a length out of a packed number.
pub fn split_eof(n: i64) -> (r: (bool, usize))
    ensures
        r.0 == (high_half(n as int) != 0),
        r.1 == not_negative(low_half(n as int)),
{
    let eof = n < 0 || n >= 0x1_0000_0000;
    (eof, low_part(n))
}

// ---------------------------------------------------------------------------
// Reads of unknown length
// ---------------------------------------------------------------------------
/// What to do with a first read.
#[derive(Debug, Clone, Copy, PartialEq, Eq, Structural)]
pub enum ReadPlan {
    /// The value is there, and has that length.
    Keep(usize),
    /// Read again, into a buffer of that length.
    Retry(usize),
    /// Take nothing.
    Discard,
}

/// What to do with a first read, by the length that the value has.
pub open spec fn plan(needed: int) -> ReadPlan {
    if needed <= SCRATCH {
        ReadPlan::Keep(needed as usize)
    } else if needed > MAX_ALLOC {
        ReadPlan::Discard
    } else {
        ReadPlan::Retry(needed as usize)
    }
}

/// What to do with a first read, by the length that the value has. A value that is
/// too long is not taken at all, rather than padded.
pub fn plan_read(needed: usize) -> (r: ReadPlan)
    ensures
        r == plan(needed as int),
{
    if needed <= SCRATCH {
        ReadPlan::Keep(needed)
    } else if needed > MAX_ALLOC {
        ReadPlan::Discard
    } else {
        ReadPlan::Retry(needed)
    }
}

/// The length that a read reports; what is negative counts as zero.
pub fn reported_length(n: i32) -> (r: usize)
    ensures
        r == not_negative(n as int),
{
    if n < 0 {
        0
    } else {
        n as usize
    }
}

/// How much of a second read to take: nothing if the host reports more than the
/// buffer holds.
pub fn accept_retry(actual: usize, capacity: usize) -> (r: Option<usize>)
    ensures
        r == if actual > capacity {
            None::<usize>
        } else {
            Some(actual)
        },
{
    if actual > capacity {
        None
    } else {
        Some(actual)
    }
}

// ---------------------------------------------------------------------------
// Lists of values
// ---------------------------------------------------------------------------
/// Where the first zero byte stands.
pub open spec fn first_zero(b: Seq<u8>) -> Option<int>
    decreases b.len(),
{
    if b.len() == 0 {
        None
    } else if b[0] == 0 {
        Some(0)
    } else {
        match first_zero(b.skip(1)) {
            Some(i) => Some(i + 1),
            None => None,
        }
    }
}

proof fn lemma_first_zero(b: Seq<u8>)
    ensures
        match first_zero(b) {
            Some(i) => 0 <= i < b.len() && b[i] == 0 && forall|k: int| 0 <= k < i ==> b[k] != 0,
            None => forall|k: int| 0 <= k < b.len() ==> b[k] != 0,
        },
    decreases b.len(),
{
    if b.len() > 0 && b[0] != 0 {
        let rest = b.skip(1);
        lemma_first_zero(rest);
        assert forall|k: int| 0 < k < b.len() implies b[k] == #[trigger] rest[k - 1] by {}
        match first_zero(rest) {
            Some(i) => {
                assert forall|k: int| 0 <= k < i + 1 implies b[k] != 0 by {
                    if k > 0 {
                        assert(rest[k - 1] != 0);
                    }
                }
            },
            None => {
                assert forall|k: int| 0 <= k < b.len() implies b[k] != 0 by {
                    if k > 0 {
                        assert(rest[k - 1] != 0);
                    }
                }
            },
        }
    }
}

proof fn lemma_zero_at(b: Seq<u8>, i: int)
    requires
        0 <= i < b.len(),
        b[i] == 0,
        forall|k: int| 0 <= k < i ==> b[k] != 0,
    ensures
        first_zero(b) == Some(i),
{
    lemma_first_zero(b);
    match first_zero(b) {
        Some(j) => {
            if j < i {
                assert(b[j] != 0);
            }
        },
        None => {
            assert(b[i] != 0);
        },
    }
}

/// The values, each up to its zero byte.
pub open spec fn terminated(b: Seq<u8>) -> Seq<Seq<u8>>
    decreases b.len(),
{
    match first_zero(b) {
        Some(i) if 0 <= i < b.len() => seq![b.take(i)] + terminated(b.skip(i + 1)),
        _ => Seq::empty(),
    }
}

/// The number of values that are taken.
pub open spec fn taken_count(available: nat, count: usize) -> int {
    let limit: int = if count < MAX_MULTI_VALUES {
        count as int
    } else {
        MAX_MULTI_VALUES as int
    };
    if available < limit {
        available as int
    } else {
        limit
    }
}

/// Takes the values out of a buffer, each up to its zero byte: as many as the host
/// reports, but not more than the limit.
pub fn split_nul(buf: &[u8], count: usize) -> (r: Vec<Vec<u8>>)
    ensures
        request::byte_lists(r@) == terminated(buf@).take(
            taken_count(terminated(buf@).len(), count),
        ),
{
    let count: usize = if count < MAX_MULTI_VALUES {
        count
    } else {
        MAX_MULTI_VALUES
    };
    let ghost all = terminated(buf@);
    if count == 0 {
        let none: Vec<Vec<u8>> = Vec::new();
        assert(request::byte_lists(none@) =~= all.take(0));
        return none;
    }
    let n: usize = buf.len();
    let mut out: Vec<Vec<u8>> = Vec::with_capacity(if count < n {
        count
    } else {
        n
    });
    let mut start: usize = 0;
    let mut i: usize = 0;
    assert(request::byte_lists(out@) =~= all.take(0));
    assert(buf@.skip(0) =~= buf@);
    assert(all.skip(0) =~= all);
    while i < n && out.len() < count
        invariant
            start <= i <= n,
            n == buf@.len(),
            all == terminated(buf@),
            out@.len() <= all.len(),
            out@.len() <= count,
            request::byte_lists(out@) == all.take(out@.len() as int),
            all.skip(out@.len() as int) == terminated(buf@.skip(start as int)),
            forall|k: int| start <= k < i ==> buf@[k] != 0,
        decreases n - i,
    {
        if buf[i] == 0 {
            let ghost rest = buf@.skip(start as int);
            let ghost m = out@.len() as int;
            let ghost part = buf@.subrange(start as int, i as int);
            let ghost before = request::byte_lists(out@);
            proof {
                let z = i - start;
                assert(rest[z] == 0);
                assert forall|k: int| 0 <= k < z implies rest[k] != 0 by {
                    assert(rest[k] == buf@[start + k]);
                }
                lemma_zero_at(rest, z);
                lemma_first_zero(rest);
                assert(terminated(rest) == seq![rest.take(z)] + terminated(rest.skip(z + 1)));
                assert(rest.take(z) =~= part);
                assert(rest.skip(z + 1) =~= buf@.skip(i + 1));
                assert(all.skip(m)[0] == part);
                assert(all[m] == part);
                assert(all.skip(m + 1) =~= all.skip(m).skip(1));
                assert((seq![part] + terminated(rest.skip(z + 1))).skip(1) =~= terminated(
                    rest.skip(z + 1),
                ));
            }
            let value = copy_range(buf, start, i);
            out.push(value);
            proof {
                assert(request::byte_lists(out@) =~= before.push(part));
                assert(all.take(m + 1) =~= all.take(m).push(part));
            }
            start = i + 1;
        }
        i = i + 1;
    }
    proof {
        if out@.len() < count {
            let rest = buf@.skip(start as int);
            lemma_first_zero(rest);
            if first_zero(rest) is Some {
                let z = first_zero(rest)->0;
                assert(rest[z] == buf@[start + z]);
            }
            assert(all.skip(out@.len() as int).len() == 0);
        }
    }
    out
}

fn copy_range(b: &[u8], from: usize, to: usize) -> (r: Vec<u8>)
    requires
        from <= to <= b@.len(),
    ensures
        r@ == b@.subrange(from as int, to as int),
{
    let mut out: Vec<u8> = Vec::new();
    let mut i: usize = from;
    while i < to
        invariant
            from <= i <= to <= b@.len(),
            out@ == b@.subrange(from as int, i as int),
        decreases to - i,
    {
        out.push(b[i]);
        i = i + 1;
        assert(out@ =~= b@.subrange(from as int, i as int));
    }
    out
}

/// The values of one header, joined by a comma and a space.
pub open spec fn joined_values(values: Seq<Seq<u8>>) -> Seq<char>
    decreases values.len(),
{
    if values.len() == 0 {
        Seq::empty()
    } else if values.len() == 1 {
        bytes::lossy(values[0])
    } else {
        joined_values(values.drop_last()) + ", "@ + bytes::lossy(values.last())
    }
}

/// The value of a header that may occur several times: all its values, joined by a
/// comma and a space; none if it does not occur.
pub fn join_values(values: &Vec<Vec<u8>>) -> (r: Option<String>)
    ensures
        match r {
            Some(s) => values@.len() > 0 && s@ == joined_values(request::byte_lists(values@)),
            None => values@.len() == 0,
        },
{
    if values.len() == 0 {
        return None;
    }
    let ghost all = request::byte_lists(values@);
    let mut out = lossy_text(&values[0]);
    let mut i: usize = 1;
    assert(all.take(1)[0] == values@[0]@);
    while i < values.len()
        invariant
            1 <= i <= values@.len(),
            all == request::byte_lists(values@),
            out@ == joined_values(all.take(i as int)),
        decreases values@.len() - i,
    {
        assert(all.take(i + 1).drop_last() =~= all.take(i as int));
        assert(all.take(i + 1).last() == values@[i as int]@);
        push_text(&mut out, ", ");
        push_text(&mut out, &lossy_text(&values[i]));
        i = i + 1;
    }
    assert(all.take(i as int) =~= all);
    Some(out)
}

// ---------------------------------------------------------------------------
// The body
// ---------------------------------------------------------------------------
/// What was read of a body.
#[derive(Debug, Default, PartialEq, Eq)]
pub struct BodyRead {
    /// The bytes, up to the limit.
    pub bytes: Vec<u8>,
    /// Whether there were more.
    pub exceeded: bool,
}

/// Why a body could not be read.
#[derive(Debug, Clone, Copy, PartialEq, Eq, Structural)]
pub enum BodyReadError {
    /// The host cannot keep the body.
    BufferingUnsupported,
    /// The stream brought nothing for too long.
    StreamStalled,
    /// The host reported more than the buffer holds.
    HostContractViolation,
}

impl BodyReadError {
    /// What went wrong, in words.
    pub open spec fn words(self) -> Seq<char> {
        match self {
            BodyReadError::BufferingUnsupported => {
                "http-wasm host does not support request-body buffering"@
            },
            BodyReadError::StreamStalled => "http-wasm request-body stream made no progress"@,
            BodyReadError::HostContractViolation => {
                "http-wasm host returned a body chunk larger than the supplied buffer"@
            },
        }
    }

    /// What went wrong, in words.
    pub fn message(&self) -> (r: &'static str)
        ensures
            r@ == self.words(),
    {
        match self {
            BodyReadError::BufferingUnsupported => {
                "http-wasm host does not support request-body buffering"
            },
            BodyReadError::StreamStalled => "http-wasm request-body stream made no progress",
            BodyReadError::HostContractViolation => {
                "http-wasm host returned a body chunk larger than the supplied buffer"
            },
        }
    }

    /// Whether the request can still be forwarded as it came: only if nothing was
    /// read yet.
    pub fn forwarding_is_safe(self) -> (r: bool)
        ensures
            r == (self == BodyReadError::BufferingUnsupported),
    {
        match self {
            BodyReadError::BufferingUnsupported => true,
            _ => false,
        }
    }
}

/// How the reading of a body goes on.
#[derive(Debug, Clone, Copy, PartialEq, Eq, Structural)]
pub enum DrainStep {
    /// Read again.
    More,
    /// Everything that matters was read.
    Done,
    /// Reading failed.
    Failed(BodyReadError),
}

/// A body while it is read.
#[derive(Debug)]
pub struct BodyDrain {
    /// How many bytes are kept.
    pub limit: usize,
    /// Whether to read on, without keeping anything, behind the limit.
    pub preserve_after_cap: bool,
    /// The bytes kept.
    pub bytes: Vec<u8>,
    /// Whether there were more.
    pub exceeded: bool,
    /// How many reads in a row brought nothing.
    pub empty_reads: usize,
}

/// The first bytes, up to a limit.
pub open spec fn within(b: Seq<u8>, limit: int) -> Seq<u8> {
    if b.len() <= limit {
        b
    } else {
        b.take(limit)
    }
}

/// What a body while it is read says.
#[verifier::ext_equal]
pub struct DrainModel {
    pub limit: int,
    pub preserve_after_cap: bool,
    pub bytes: Seq<u8>,
    pub exceeded: bool,
    pub empty_reads: int,
}

/// A read into the buffer: its end mark, the number of bytes, and the buffer.
pub struct ReadModel {
    pub eof: bool,
    pub size: int,
    pub scratch: Seq<u8>,
}

/// A body of which nothing was read yet.
pub open spec fn unread(limit: int, preserve_after_cap: bool) -> DrainModel {
    DrainModel {
        limit,
        preserve_after_cap,
        bytes: Seq::empty(),
        exceeded: false,
        empty_reads: 0,
    }
}

/// What a read makes of a body, and how the reading goes on.
pub open spec fn after_read(d: DrainModel, read: ReadModel) -> (DrainModel, DrainStep) {
    if read.size > SCRATCH {
        (d, DrainStep::Failed(BodyReadError::HostContractViolation))
    } else if read.size == 0 && read.eof {
        (d, DrainStep::Done)
    } else if read.size == 0 {
        (
            DrainModel { empty_reads: d.empty_reads + 1, ..d },
            if d.empty_reads + 1 == MAX_EMPTY_READS {
                DrainStep::Failed(BodyReadError::StreamStalled)
            } else {
                DrainStep::More
            },
        )
    } else {
        let over = d.bytes.len() + read.size > d.limit;
        (
            DrainModel {
                bytes: within(d.bytes + read.scratch.take(read.size), d.limit),
                exceeded: d.exceeded || over,
                empty_reads: 0,
                ..d
            },
            if read.eof || (over && !d.preserve_after_cap) {
                DrainStep::Done
            } else {
                DrainStep::More
            },
        )
    }
}

impl View for BodyDrain {
    type V = DrainModel;

    open spec fn view(&self) -> DrainModel {
        DrainModel {
            limit: self.limit as int,
            preserve_after_cap: self.preserve_after_cap,
            bytes: self.bytes@,
            exceeded: self.exceeded,
            empty_reads: self.empty_reads as int,
        }
    }
}

/// How many of the bytes in the buffer are to be written back to the host, so that
/// the next handler gets what was read: all that were read, unless the host reports
/// more than the buffer holds.
pub fn to_write_back(size: usize) -> (r: usize)
    ensures
        r == written_size(size as int),
{
    if size <= SCRATCH {
        size
    } else {
        0
    }
}

/// How many bytes of a read are written back.
pub open spec fn written_size(size: int) -> int {
    if size <= SCRATCH {
        size
    } else {
        0
    }
}

impl BodyDrain {
    /// No more is kept than allowed, and the reads without progress are counted.
    pub open spec fn wf(&self) -> bool {
        &&& self.bytes@.len() <= self.limit <= MAX_ALLOC
        &&& self.empty_reads < MAX_EMPTY_READS
    }

    /// A body of which nothing was read yet.
    pub fn new(max: usize, preserve_after_cap: bool) -> (r: BodyDrain)
        ensures
            r.wf(),
            r@ == unread(
                if max < MAX_ALLOC {
                    max as int
                } else {
                    MAX_ALLOC as int
                },
                preserve_after_cap,
            ),
    {
        BodyDrain {
            limit: if max < MAX_ALLOC {
                max
            } else {
                MAX_ALLOC
            },
            preserve_after_cap,
            bytes: Vec::new(),
            exceeded: false,
            empty_reads: 0,
        }
    }

    /// Takes note of a read into a buffer: its end mark and the number of bytes.
    pub fn drain_body(&mut self, eof: bool, size: usize, scratch: &[u8]) -> (r: DrainStep)
        requires
            old(self).wf(),
            scratch@.len() == SCRATCH,
        ensures
            (final(self)@, r) == after_read(
                old(self)@,
                ReadModel { eof, size: size as int, scratch: scratch@ },
            ),
            r is More ==> final(self).wf(),
    {
        if size > SCRATCH {
            return DrainStep::Failed(BodyReadError::HostContractViolation);
        }
        if size == 0 {
            if eof {
                return DrainStep::Done;
            }
            self.empty_reads = self.empty_reads + 1;
            if self.empty_reads >= MAX_EMPTY_READS {
                return DrainStep::Failed(BodyReadError::StreamStalled);
            }
            return DrainStep::More;
        }
        self.empty_reads = 0;
        let remaining: usize = self.limit - self.bytes.len();
        let take: usize = if remaining < size {
            remaining
        } else {
            size
        };
        let ghost before = self.bytes@;
        let mut i: usize = 0;
        while i < take
            invariant
                i <= take <= size <= SCRATCH,
                scratch@.len() == SCRATCH,
                self.bytes@ == before + scratch@.take(i as int),
                self.limit == old(self).limit,
                self.preserve_after_cap == old(self).preserve_after_cap,
                self.exceeded == old(self).exceeded,
                self.empty_reads == 0,
            decreases take - i,
        {
            self.bytes.push(scratch[i]);
            i = i + 1;
            assert(self.bytes@ =~= before + scratch@.take(i as int));
        }
        assert(self.bytes@ =~= within(before + scratch@.take(size as int), self.limit as int));
        if size > take {
            self.exceeded = true;
            if !self.preserve_after_cap {
                return DrainStep::Done;
            }
        }
        if eof {
            DrainStep::Done
        } else {
            DrainStep::More
        }
    }

    /// What was read.
    pub fn finish(self) -> (r: BodyRead)
        ensures
            r.bytes@ == self.bytes@,
            r.exceeded == self.exceeded,
    {
        BodyRead { bytes: self.bytes, exceeded: self.exceeded }
    }
}

// ---------------------------------------------------------------------------
// Laws
// ---------------------------------------------------------------------------
/// What a series of reads makes of a body, how the reading goes on behind it, and
/// what was written back on the way. Behind a read with which the reading ends,
/// nothing more is read.
pub open spec fn after_reads(d: DrainModel, reads: Seq<ReadModel>) -> (
    DrainModel,
    DrainStep,
    Seq<u8>,
)
    decreases reads.len(),
{
    if reads.len() == 0 {
        (d, DrainStep::More, Seq::empty())
    } else {
        let (before, step, written) = after_reads(d, reads.drop_last());
        if step != DrainStep::More {
            (before, step, written)
        } else {
            let read = reads.last();
            let (after, next) = after_read(before, read);
            (after, next, written + read.scratch.take(written_size(read.size)))
        }
    }
}

/// The bytes that a read delivers: none where it claims more than the buffer holds.
pub open spec fn delivered(read: ReadModel) -> Seq<u8> {
    if read.size <= SCRATCH {
        read.scratch.take(read.size)
    } else {
        Seq::empty()
    }
}

/// The bytes that a series of reads delivers.
pub open spec fn came(reads: Seq<ReadModel>) -> Seq<u8>
    decreases reads.len(),
{
    if reads.len() == 0 {
        Seq::empty()
    } else {
        came(reads.drop_last()) + delivered(reads.last())
    }
}

/// How many reads in a row, up to the last one, brought nothing.
pub open spec fn idle(reads: Seq<ReadModel>) -> int
    decreases reads.len(),
{
    if reads.len() == 0 || reads.last().size != 0 {
        0
    } else {
        idle(reads.drop_last()) + 1
    }
}

/// A series of reads into the buffer, each of which was made: the reading did not
/// end with one before the last.
pub open spec fn were_made(d: DrainModel, reads: Seq<ReadModel>) -> bool {
    &&& reads.len() > 0
    &&& after_reads(d, reads.drop_last()).1 == DrainStep::More
    &&& forall|i: int|
        0 <= i < reads.len() ==> (#[trigger] reads[i]).size >= 0 && reads[i].scratch.len()
            == SCRATCH
}

proof fn lemma_reading(limit: int, preserve: bool, reads: Seq<ReadModel>)
    requires
        0 <= limit,
        after_reads(unread(limit, preserve), reads).1 == DrainStep::More,
        forall|i: int|
            0 <= i < reads.len() ==> (#[trigger] reads[i]).size >= 0 && reads[i].scratch.len()
                == SCRATCH,
    ensures
        ({
            let (d, _, written) = after_reads(unread(limit, preserve), reads);
            &&& d == (DrainModel {
                limit,
                preserve_after_cap: preserve,
                bytes: within(came(reads), limit),
                exceeded: came(reads).len() > limit,
                empty_reads: idle(reads),
            })
            &&& written == came(reads)
            &&& idle(reads) < MAX_EMPTY_READS
            &&& !preserve ==> came(reads).len() <= limit
        }),
    decreases reads.len(),
{
    let start = unread(limit, preserve);
    if reads.len() == 0 {
        assert(within(came(reads), limit) =~= Seq::<u8>::empty());
    } else {
        let front = reads.drop_last();
        assert forall|i: int| 0 <= i < front.len() implies (#[trigger] front[i]).size >= 0
            && front[i].scratch.len() == SCRATCH by {
            assert(front[i] == reads[i]);
        }
        lemma_reading(limit, preserve, front);
        assert(reads[reads.len() - 1].scratch.len() == SCRATCH);
        lemma_read(limit, preserve, front, reads.last());
    }
}

/// One more read behind a series of them.
proof fn lemma_read(limit: int, preserve: bool, front: Seq<ReadModel>, read: ReadModel)
    requires
        0 <= limit,
        0 <= read.size,
        read.scratch.len() == SCRATCH,
    ensures
        ({
            let d = DrainModel {
                limit,
                preserve_after_cap: preserve,
                bytes: within(came(front), limit),
                exceeded: came(front).len() > limit,
                empty_reads: idle(front),
            };
            let (after, step) = after_read(d, read);
            let all = came(front) + delivered(read);
            &&& after.limit == limit
            &&& after.preserve_after_cap == preserve
            &&& after.bytes == within(all, limit)
            &&& after.exceeded == (all.len() > limit)
            &&& read.scratch.take(written_size(read.size)) == delivered(read)
        }),
{
    let all = came(front) + delivered(read);
    assert(read.scratch.take(written_size(read.size)) =~= delivered(read));
    if read.size == 0 || read.size > SCRATCH {
        assert(all =~= came(front));
    } else {
        assert(within(within(came(front), limit) + read.scratch.take(read.size), limit)
            =~= within(all, limit));
    }
}

/// However a body comes in, every byte of it is written back, in its order, and
/// only once; what is kept is its beginning, up to the limit; and it counts as
/// exceeding just when there is more. Where the whole body is to be preserved, the
/// reading is done just with the read that says it is the last, and no sooner.
pub proof fn law_body_is_preserved(limit: int, preserve: bool, reads: Seq<ReadModel>)
    requires
        0 <= limit,
        were_made(unread(limit, preserve), reads),
    ensures
        ({
            let (d, step, written) = after_reads(unread(limit, preserve), reads);
            let (size, eof) = (reads.last().size, reads.last().eof);
            &&& written == came(reads)
            &&& d.bytes == within(came(reads), limit)
            &&& d.exceeded == (came(reads).len() > limit)
            &&& step == if size > SCRATCH {
                DrainStep::Failed(BodyReadError::HostContractViolation)
            } else if !eof && idle(reads) == MAX_EMPTY_READS {
                DrainStep::Failed(BodyReadError::StreamStalled)
            } else if eof || (d.exceeded && !preserve) {
                DrainStep::Done
            } else {
                DrainStep::More
            }
        }),
{
    let front = reads.drop_last();
    let read = reads.last();
    assert forall|i: int| 0 <= i < front.len() implies (#[trigger] front[i]).size >= 0
        && front[i].scratch.len() == SCRATCH by {
        assert(front[i] == reads[i]);
    }
    lemma_reading(limit, preserve, front);
    assert(reads[reads.len() - 1].scratch.len() == SCRATCH);
    lemma_read(limit, preserve, front, read);
}

/// No list of values is longer than the limit or than what the host reports.
pub proof fn law_value_count_is_bounded(b: Seq<u8>, count: usize)
    ensures
        taken_count(terminated(b).len(), count) <= count,
        taken_count(terminated(b).len(), count) <= MAX_MULTI_VALUES,
        0 <= taken_count(terminated(b).len(), count) <= terminated(b).len(),
{
}

/// No read takes more than the largest allowed size into memory.
pub proof fn law_reads_are_bounded(needed: int)
    requires
        needed >= 0,
    ensures
        plan(needed) matches ReadPlan::Keep(n) ==> n == needed && n <= SCRATCH,
        plan(needed) matches ReadPlan::Retry(n) ==> n == needed && SCRATCH < n <= MAX_ALLOC,
{
}

/// The halves of a number make it up: the high one counts whole words, and the low one is
/// what is left, as a signed number.
pub proof fn law_halves_make_up_the_number(n: int)
    ensures
        -0x8000_0000 <= low_half(n) < 0x8000_0000,
        low_half(n) >= 0 ==> high_half(n) * 0x1_0000_0000 + low_half(n) == n,
        low_half(n) < 0 ==> high_half(n) * 0x1_0000_0000 + 0x1_0000_0000 + low_half(n) == n,
{
}

/// What fits the scratch space is kept, what is larger is read again, and what is too large
/// is not read at all.
pub proof fn law_reads_are_planned_by_size(needed: int)
    requires
        needed >= 0,
    ensures
        plan(needed) is Keep <==> needed <= 2048,
        plan(needed) is Retry <==> 2048 < needed <= 0xFF_FFFF,
        plan(needed) is Discard <==> needed > 0xFF_FFFF,
{
}

proof fn lemma_first_zero_at(v: Seq<u8>, rest: Seq<u8>)
    requires
        !v.contains(0),
    ensures
        first_zero(v + seq![0u8] + rest) == Some(v.len() as int),
    decreases v.len(),
{
    let b = v + seq![0u8] + rest;
    if v.len() > 0 {
        assert(v.contains(v[0]));
        assert(b[0] == v[0]);
        assert(!v.skip(1).contains(0)) by {
            if v.skip(1).contains(0) {
                let i = v.skip(1).index_of(0);
                assert(v[i + 1] == 0);
            }
        }
        assert(b.skip(1) =~= v.skip(1) + seq![0u8] + rest);
        lemma_first_zero_at(v.skip(1), rest);
    } else {
        assert(b[0] == 0);
    }
}

proof fn lemma_no_zero(v: Seq<u8>)
    requires
        !v.contains(0),
    ensures
        first_zero(v) is None,
    decreases v.len(),
{
    if v.len() > 0 {
        assert(v.contains(v[0]));
        assert(!v.skip(1).contains(0)) by {
            if v.skip(1).contains(0) {
                let i = v.skip(1).index_of(0);
                assert(v[i + 1] == 0);
            }
        }
        lemma_no_zero(v.skip(1));
    }
}

/// A value ends at a zero, and the next one starts behind it. What no zero ends is no
/// value.
pub proof fn law_values_end_at_zeros(v: Seq<u8>, rest: Seq<u8>)
    requires
        !v.contains(0),
    ensures
        terminated(v + seq![0u8] + rest) == seq![v] + terminated(rest),
        terminated(v).len() == 0,
{
    let b = v + seq![0u8] + rest;
    lemma_first_zero_at(v, rest);
    lemma_no_zero(v);
    assert(b.take(v.len() as int) =~= v);
    assert(b.skip(v.len() as int + 1) =~= rest);
}

/// As many values are taken as are there, announced and allowed.
pub proof fn law_least_count_is_taken(available: nat, count: usize)
    ensures
        ({
            let t = taken_count(available, count);
            &&& t <= available && t <= count && t <= 1024
            &&& t == available || t == count || t == 1024
        }),
{
}

/// The values of a header stand in order, with a comma and a space between them.
pub proof fn law_values_are_joined_in_order(a: Seq<Seq<u8>>, b: Seq<Seq<u8>>)
    requires
        a.len() > 0,
        b.len() > 0,
    ensures
        joined_values(a + b) == joined_values(a) + ", "@ + joined_values(b),
        b.len() == 1 ==> joined_values(b) == bytes::lossy(b[0]),
    decreases b.len(),
{
    assert((a + b).last() == b.last());
    assert((a + b).drop_last() =~= a + b.drop_last());
    if b.len() == 1 {
        assert(a + b.drop_last() =~= a);
    } else {
        law_values_are_joined_in_order(a, b.drop_last());
        assert(joined_values(a + b) =~= joined_values(a) + ", "@ + joined_values(b));
    }
}

/// What came is what each read brought, in order.
pub proof fn law_reads_add_up(a: Seq<ReadModel>, b: Seq<ReadModel>, read: ReadModel)
    ensures
        came(a + b) == came(a) + came(b),
        read.size <= 2048 ==> came(seq![read]) == read.scratch.take(read.size),
        read.size > 2048 ==> came(seq![read]).len() == 0,
    decreases b.len(),
{
    reveal_with_fuel(came, 2);
    let one = seq![read];
    assert(one.drop_last() =~= Seq::<ReadModel>::empty());
    assert(came(one) =~= delivered(read));
    if b.len() == 0 {
        assert(a + b =~= a);
        assert(came(a) + came(b) =~= came(a));
    } else {
        law_reads_add_up(a, b.drop_last(), read);
        assert((a + b).drop_last() =~= a + b.drop_last());
        assert((a + b).last() == b.last());
        assert(came(a + b) =~= came(a) + came(b));
    }
}

/// A stream is given up after three reads in a row that bring nothing.
pub proof fn law_stalled_stream_is_given_up(d: DrainModel, read: ReadModel)
    requires
        read.size == 0,
        !read.eof,
    ensures
        after_read(d, read).0.empty_reads == d.empty_reads + 1,
        after_read(d, read).0.bytes == d.bytes,
        after_read(d, read).1 == DrainStep::Failed(BodyReadError::StreamStalled) <==> d.empty_reads
            == 2,
{
}

/// A length below zero counts as none.
pub proof fn law_negative_length_is_none(n: int)
    ensures
        not_negative(n) >= 0 && not_negative(n) >= n,
        not_negative(n) == 0 || not_negative(n) == n,
{
}

} // verus!
